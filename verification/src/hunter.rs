//! Copying and synchronising the title-screen hunter entries
//! (`LoadInfoData._HunterArray`) between system files.

use vstd::prelude::*;
use crate::model::{SaveTree, Class, ClassV, Field, FieldValue, Value, EnumValue, value_view, class_view,
    first_key, is_first_key, lemma_first_key, lemma_no_key, lemma_class_set_value};
use crate::edit::{ValueEdit, SetElem, AtIndex, edit_tree, tree_mapped, tree_any, set_elem, has_elem, at_index,
    at_index_hit, lemma_tree_hit_any};
use crate::read::{ValueReader, read_tree, tree_read, tree_collect, lemma_tree_read_collect};
use crate::schema::{LOADINFO_CLS, HUNTER_ARRAY_FIELD, link_enum_fields, target_bound_fields, is_link_enum_field,
    is_target_bound_field};
use crate::container::{link_of, read_link};
use crate::sys::SysEditError;

verus! {

/// The hunter entry at `idx` of a `_HunterArray` value, when there is one and
/// it is a class.
pub open spec fn entry_at(v: Value, idx: int) -> Seq<ClassV> {
    if has_elem(v, idx) && v->Array_1[idx] is Class {
        seq![v->Array_1[idx]->Class_0]
    } else {
        Seq::empty()
    }
}

/// The fields of the hunter entry at `idx`, when there is one.
pub open spec fn entry_fields(v: Value, idx: int) -> Seq<(u32, Value)> {
    if has_elem(v, idx) && v->Array_1[idx] is Class {
        v->Array_1[idx]->Class_0.fields
    } else {
        Seq::empty()
    }
}

/// Reads the hunter entry at `idx`.
pub struct EntryClass {
    pub idx: usize,
}

impl ValueReader for EntryClass {
    type Out = Class;

    open spec fn read(&self, v: Value) -> Seq<ClassV> {
        entry_at(v, self.idx as int)
    }

    fn run(&self, v: &FieldValue, out: &mut Vec<Class>) {
        let ghost before = out.deep_view();
        match v {
            FieldValue::Array(a) => {
                if self.idx < a.values.len() {
                    proof {
                        assert(v@->Array_1[self.idx as int] == value_view(a.values@[self.idx as int]));
                    }
                    match &a.values[self.idx] {
                        FieldValue::Class(c) => {
                            proof {
                                crate::model::lemma_class_value_view(**c);
                            }
                            let d = c.duplicate();
                            out.push(d);
                            assert(out.deep_view() =~= before + self.read(v@));
                            return;
                        },
                        _ => {},
                    }
                }
            },
            _ => {},
        }
        assert(out.deep_view() =~= before + self.read(v@));
    }
}

/// Reads the fields of the hunter entry at `idx`.
pub struct EntryFields {
    pub idx: usize,
}

impl ValueReader for EntryFields {
    type Out = Field;

    open spec fn read(&self, v: Value) -> Seq<(u32, Value)> {
        entry_fields(v, self.idx as int)
    }

    fn run(&self, v: &FieldValue, out: &mut Vec<Field>) {
        let ghost before = out.deep_view();
        match v {
            FieldValue::Array(a) => {
                if self.idx < a.values.len() {
                    proof {
                        assert(v@->Array_1[self.idx as int] == value_view(a.values@[self.idx as int]));
                    }
                    match &a.values[self.idx] {
                        FieldValue::Class(c) => {
                            proof {
                                crate::model::lemma_class_value_view(**c);
                            }
                            let ghost cv = c@;
                            let mut j: usize = 0;
                            while j < c.fields.len()
                                invariant
                                    j <= c.fields@.len(),
                                    cv == class_view(**c),
                                    out.deep_view() == before + cv.fields.take(j as int),
                                decreases c.fields@.len() - j,
                            {
                                let x = c.fields[j].value.duplicate();
                                let ghost prev = out.deep_view();
                                out.push(Field { hash: c.fields[j].hash, value: x });
                                proof {
                                    assert(out.deep_view() =~= prev.push(cv.fields[j as int]));
                                    assert(cv.fields.take(j + 1) =~= cv.fields.take(j as int).push(cv.fields[j as int]));
                                }
                                j += 1;
                            }
                            assert(cv.fields.take(cv.fields.len() as int) =~= cv.fields);
                            return;
                        },
                        _ => {},
                    }
                }
            },
            _ => {},
        }
        assert(out.deep_view() =~= before + self.read(v@));
    }
}

/// The value the link-derived enums of a copied hunter entry get: the link
/// word shifted left by eight bits, as a 4-byte enum.
pub open spec fn link_enum_value(link: u32) -> Value {
    Value::Enum(EnumValue::E4((link << 8u32) as i32))
}

/// A hunter entry with its link-derived enums set from `link`.
pub open spec fn linked_entry(c: ClassV, link: u32) -> ClassV {
    ClassV {
        hash: c.hash,
        fields: Seq::new(
            c.fields.len(),
            |j: int|
                if link_enum_fields().contains(c.fields[j].0) {
                    (c.fields[j].0, link_enum_value(link))
                } else {
                    c.fields[j]
                },
        ),
    }
}

fn link_entry(c: &mut Class, link: u32)
    ensures
        final(c)@ == linked_entry(old(c)@, link),
{
    let ghost c0 = old(c)@;
    let mut j: usize = 0;
    while j < c.fields.len()
        invariant
            j <= c.fields@.len(),
            c0 == old(c)@,
            c@.hash == c0.hash,
            c@.fields.len() == c0.fields.len(),
            forall|k: int| 0 <= k < j ==> #[trigger] c@.fields[k] == linked_entry(c0, link).fields[k],
            forall|k: int| j <= k < c0.fields.len() ==> #[trigger] c@.fields[k] == c0.fields[k],
        decreases c0.fields.len() - j,
    {
        proof {
            assert(c@.fields[j as int] == c0.fields[j as int]);
            assert(c0.fields[j as int].0 == c.fields@[j as int].hash);
        }
        if is_link_enum_field(c.fields[j].hash) {
            let ghost before = *c;
            let nv = FieldValue::Enum(EnumValue::E4((link << 8u32) as i32));
            c.fields[j].value = nv;
            proof {
                lemma_class_set_value(before, *c, j as int, nv);
            }
        }
        j += 1;
    }
    assert(c@.fields =~= linked_entry(c0, link).fields);
}

/// The hunter entries at `idx` of a system file, in save order.
pub open spec fn entries_at(t: Seq<(u32, ClassV)>, idx: int) -> Seq<ClassV> {
    tree_collect(t, LOADINFO_CLS, HUNTER_ARRAY_FIELD, |v: Value| entry_at(v, idx))
}

/// Copy hunter entry `src_idx` of the source system file `s` over hunter entry
/// `dst_idx` of the target system file `t`, with its link-derived enums set
/// from the target file's link word (`tgt_sys` is the target file as stored).
/// When several entries are found at `src_idx` the last one is copied. Refused
/// when the source has no entry at `src_idx` (the target is then unchanged) or
/// the target has no element at `dst_idx`.
pub fn copy_hunter_entry(t: &mut SaveTree, s: &SaveTree, tgt_sys: &[u8], dst_idx: u32, src_idx: u32) -> (r: Result<(), SysEditError>)
    ensures
        entries_at(s@, src_idx as int).len() == 0 ==> r == Err::<(), SysEditError>(SysEditError::SrcEntryNotFound)
            && final(t)@ == old(t)@,
        entries_at(s@, src_idx as int).len() > 0 ==> {
            &&& final(t)@ == tree_mapped(old(t)@, LOADINFO_CLS, HUNTER_ARRAY_FIELD, |v: Value| set_elem(v, dst_idx as int,
                Value::Class(linked_entry(entries_at(s@, src_idx as int).last(), link_of(tgt_sys@)))))
            &&& (r is Ok <==> tree_any(old(t)@, LOADINFO_CLS, HUNTER_ARRAY_FIELD, |v: Value| has_elem(v, dst_idx as int)))
            &&& (r is Err ==> r == Err::<(), SysEditError>(SysEditError::DstEntryNotFound))
        },
{
    let link = read_link(tgt_sys);
    let reader = EntryClass { idx: src_idx as usize };
    let mut found = read_tree(&reader, s, Some(LOADINFO_CLS), HUNTER_ARRAY_FIELD);
    proof {
        lemma_tree_read_collect(reader, s@, LOADINFO_CLS, HUNTER_ARRAY_FIELD);
        assert((|v: Value| reader.read(v)) =~= (|v: Value| entry_at(v, src_idx as int)));
    }
    let ghost all = found.deep_view();
    let mut entry = match found.pop() {
        Some(c) => c,
        None => {
            return Err(SysEditError::SrcEntryNotFound);
        },
    };
    proof {
        assert(entry@ == all.last());
    }
    link_entry(&mut entry, link);
    let ghost ev = entry@;
    let value = FieldValue::Class(Box::new(entry));
    proof {
        crate::model::lemma_class_value_view(entry);
    }
    let e = SetElem { idx: dst_idx as usize, value };
    proof {
        assert((|v: Value| e.edited(v)) =~= (|v: Value| set_elem(v, dst_idx as int, Value::Class(ev))));
        assert((|v: Value| e.hit(v)) =~= (|v: Value| has_elem(v, dst_idx as int)));
        lemma_tree_hit_any(e, old(t)@, LOADINFO_CLS, HUNTER_ARRAY_FIELD);
    }
    if edit_tree(&e, t, LOADINFO_CLS, HUNTER_ARRAY_FIELD) {
        Ok(())
    } else {
        Err(SysEditError::DstEntryNotFound)
    }
}

} // verus!

verus! {

/// Field `h` of a target entry, holding `v`, is taken from the source fields
/// `src`: it is not target-bound and the source has a field `h`.
pub open spec fn replaces(h: u32, v: Value, src: Seq<(u32, Value)>) -> bool {
    &&& !target_bound_fields().contains(h)
    &&& first_key(src, h) >= 0
}

/// A target hunter entry with every replaceable field taken from `src`.
pub open spec fn merged_entry(c: ClassV, src: Seq<(u32, Value)>) -> ClassV {
    ClassV {
        hash: c.hash,
        fields: Seq::new(
            c.fields.len(),
            |j: int|
                if replaces(c.fields[j].0, c.fields[j].1, src) {
                    (c.fields[j].0, src[first_key(src, c.fields[j].0)].1)
                } else {
                    c.fields[j]
                },
        ),
    }
}

pub open spec fn merged_value(v: Value, src: Seq<(u32, Value)>) -> Value {
    if v is Class {
        Value::Class(merged_entry(v->Class_0, src))
    } else {
        v
    }
}

/// The hashes of the fields of an entry that `src` replaces, in field order.
pub open spec fn replaced_fields(fields: Seq<(u32, Value)>, src: Seq<(u32, Value)>) -> Seq<u32>
    decreases fields.len(),
{
    if fields.len() == 0 {
        Seq::empty()
    } else {
        replaced_fields(fields.drop_last(), src) + if replaces(fields.last().0, fields.last().1, src) {
            seq![fields.last().0]
        } else {
            Seq::empty()
        }
    }
}

/// The hashes of the fields of entry `idx` of a `_HunterArray` value that
/// `src` replaces.
pub open spec fn entry_replaced(v: Value, idx: int, src: Seq<(u32, Value)>) -> Seq<u32> {
    if has_elem(v, idx) && v->Array_1[idx] is Class {
        replaced_fields(v->Array_1[idx]->Class_0.fields, src)
    } else {
        Seq::empty()
    }
}

fn find_src(src: &Vec<Field>, h: u32) -> (r: Option<usize>)
    ensures
        match r {
            Some(k) => is_first_key(src.deep_view(), h, k as int) && k < src@.len(),
            None => first_key(src.deep_view(), h) == -1,
        },
{
    let ghost sv = src.deep_view();
    let mut k: usize = 0;
    while k < src.len()
        invariant
            k <= src@.len(),
            sv == src.deep_view(),
            forall|j: int| 0 <= j < k ==> #[trigger] sv[j].0 != h,
        decreases src@.len() - k,
    {
        if src[k].hash == h {
            return Some(k);
        }
        k += 1;
    }
    proof {
        lemma_no_key(sv, h);
    }
    None
}

/// Takes every replaceable field of a hunter entry from `src`.
pub struct MergeFrom<'a> {
    pub src: &'a Vec<Field>,
}

impl<'a> ValueEdit for MergeFrom<'a> {
    open spec fn edited(&self, v: Value) -> Value {
        merged_value(v, self.src.deep_view())
    }

    open spec fn hit(&self, v: Value) -> bool {
        v is Class
    }

    fn apply(&self, v: &mut FieldValue) -> (hit: bool) {
        match v {
            FieldValue::Class(b) => {
                let ghost c0 = (**b)@;
                let ghost sv = self.src.deep_view();
                proof {
                    crate::model::lemma_class_value_view(**b);
                }
                let mut j: usize = 0;
                while j < b.fields.len()
                    invariant
                        j <= b.fields@.len(),
                        sv == self.src.deep_view(),
                        (**b)@.hash == c0.hash,
                        (**b)@.fields.len() == c0.fields.len(),
                        forall|k: int| 0 <= k < j ==> #[trigger] (**b)@.fields[k] == merged_entry(c0, sv).fields[k],
                        forall|k: int| j <= k < c0.fields.len() ==> #[trigger] (**b)@.fields[k] == c0.fields[k],
                    decreases c0.fields.len() - j,
                {
                    let h = b.fields[j].hash;
                    proof {
                        assert((**b)@.fields[j as int] == c0.fields[j as int]);
                        assert(c0.fields[j as int] == (h, value_view(b.fields@[j as int].value)));
                    }
                    if !is_target_bound_field(h) {
                        match find_src(self.src, h) {
                            Some(k) => {
                                proof {
                                    lemma_first_key(sv, h, k as int);
                                    assert(sv[k as int] == (self.src@[k as int].hash, value_view(self.src@[k as int].value)));
                                }
                                let nv = self.src[k].value.duplicate();
                                let ghost before = **b;
                                b.fields[j].value = nv;
                                proof {
                                    lemma_class_set_value(before, **b, j as int, nv);
                                }
                            },
                            None => {},
                        }
                    }
                    j += 1;
                }
                proof {
                    assert((**b)@.fields =~= merged_entry(c0, sv).fields);
                    crate::model::lemma_class_value_view(**b);
                }
                true
            },
            _ => false,
        }
    }
}

/// Reads the hashes of the fields of entry `idx` that `src` replaces.
pub struct ReplacedFields<'a> {
    pub idx: usize,
    pub src: &'a Vec<Field>,
}

impl<'a> ValueReader for ReplacedFields<'a> {
    type Out = u32;

    open spec fn read(&self, v: Value) -> Seq<u32> {
        entry_replaced(v, self.idx as int, self.src.deep_view())
    }

    fn run(&self, v: &FieldValue, out: &mut Vec<u32>) {
        let ghost before = out.deep_view();
        let ghost sv = self.src.deep_view();
        match v {
            FieldValue::Array(a) => {
                if self.idx < a.values.len() {
                    proof {
                        assert(v@->Array_1[self.idx as int] == value_view(a.values@[self.idx as int]));
                    }
                    match &a.values[self.idx] {
                        FieldValue::Class(c) => {
                            proof {
                                crate::model::lemma_class_value_view(**c);
                            }
                            let ghost cv = c@;
                            let mut j: usize = 0;
                            while j < c.fields.len()
                                invariant
                                    j <= c.fields@.len(),
                                    cv == class_view(**c),
                                    sv == self.src.deep_view(),
                                    out.deep_view() == before + replaced_fields(cv.fields.take(j as int), sv),
                                decreases c.fields@.len() - j,
                            {
                                let h = c.fields[j].hash;
                                proof {
                                    assert(cv.fields.take(j + 1).drop_last() =~= cv.fields.take(j as int));
                                    assert(cv.fields.take(j + 1).last() == cv.fields[j as int]);
                                    assert(cv.fields[j as int] == (h, value_view(c.fields@[j as int].value)));
                                }
                                let mut hit = false;
                                if !is_target_bound_field(h) {
                                    match find_src(self.src, h) {
                                        Some(k) => {
                                            proof {
                                                lemma_first_key(sv, h, k as int);
                                                assert(sv[k as int] == (self.src@[k as int].hash, value_view(self.src@[k as int].value)));
                                            }
                                            hit = true;
                                        },
                                        None => {},
                                    }
                                }
                                let ghost prev = out.deep_view();
                                if hit {
                                    out.push(h);
                                    assert(out.deep_view() =~= prev.push(h));
                                }
                                proof {
                                    assert(hit == replaces(h, cv.fields[j as int].1, sv));
                                    assert(out.deep_view() =~= before + replaced_fields(cv.fields.take(j + 1), sv));
                                }
                                j += 1;
                            }
                            assert(cv.fields.take(cv.fields.len() as int) =~= cv.fields);
                            return;
                        },
                        _ => {},
                    }
                }
            },
            _ => {},
        }
        assert(out.deep_view() =~= before + self.read(v@));
    }
}

/// The fields of the source hunter entries at `idx`, in save order.
pub open spec fn source_fields(s: Seq<(u32, ClassV)>, idx: int) -> Seq<(u32, Value)> {
    tree_collect(s, LOADINFO_CLS, HUNTER_ARRAY_FIELD, |v: Value| entry_fields(v, idx))
}

/// Synchronise hunter entry `tgt_idx` of the target system file `t` with entry
/// `src_idx` of `s`: every field of the target entry that is not target-bound
/// (the link-derived enums and the character GUID) takes the value of the first
/// source field with the same hash, where the source has one.
/// Returns how many fields were replaced. Refused when the source entry is
/// missing or has no fields (the target is then unchanged), or when the target
/// has no entry at `tgt_idx`.
pub fn sync_hunter_entry(t: &mut SaveTree, s: &SaveTree, tgt_idx: u32, src_idx: u32) -> (r: Result<usize, SysEditError>)
    ensures
        source_fields(s@, src_idx as int).len() == 0 ==> r == Err::<usize, SysEditError>(SysEditError::SrcEntryNotFound)
            && final(t)@ == old(t)@,
        source_fields(s@, src_idx as int).len() > 0 ==> {
            let src = source_fields(s@, src_idx as int);
            &&& final(t)@ == tree_mapped(old(t)@, LOADINFO_CLS, HUNTER_ARRAY_FIELD,
                |v: Value| at_index(v, tgt_idx as int, |x: Value| merged_value(x, src)))
            &&& (r is Ok <==> tree_any(old(t)@, LOADINFO_CLS, HUNTER_ARRAY_FIELD,
                |v: Value| at_index_hit(v, tgt_idx as int, |x: Value| x is Class)))
            &&& (r is Err ==> r == Err::<usize, SysEditError>(SysEditError::TgtEntryNotFound))
            &&& (r matches Ok(n) ==> n == tree_collect(old(t)@, LOADINFO_CLS, HUNTER_ARRAY_FIELD,
                |v: Value| entry_replaced(v, tgt_idx as int, src)).len())
        },
{
    let reader = EntryFields { idx: src_idx as usize };
    let src_fields = read_tree(&reader, s, Some(LOADINFO_CLS), HUNTER_ARRAY_FIELD);
    proof {
        lemma_tree_read_collect(reader, s@, LOADINFO_CLS, HUNTER_ARRAY_FIELD);
        assert((|v: Value| reader.read(v)) =~= (|v: Value| entry_fields(v, src_idx as int)));
    }
    if src_fields.len() == 0 {
        return Err(SysEditError::SrcEntryNotFound);
    }
    let ghost src = src_fields.deep_view();
    let counter = ReplacedFields { idx: tgt_idx as usize, src: &src_fields };
    let replaced = read_tree(&counter, t, Some(LOADINFO_CLS), HUNTER_ARRAY_FIELD);
    proof {
        lemma_tree_read_collect(counter, old(t)@, LOADINFO_CLS, HUNTER_ARRAY_FIELD);
        assert((|v: Value| counter.read(v)) =~= (|v: Value| entry_replaced(v, tgt_idx as int, src)));
        assert(replaced.deep_view().len() == replaced@.len());
    }
    let e = AtIndex { idx: tgt_idx as usize, inner: MergeFrom { src: &src_fields } };
    proof {
        assert((|x: Value| e.inner.edited(x)) =~= (|x: Value| merged_value(x, src)));
        assert((|v: Value| e.edited(v)) =~= (|v: Value| at_index(v, tgt_idx as int, |x: Value| merged_value(x, src))));
        assert((|x: Value| e.inner.hit(x)) =~= (|x: Value| x is Class));
        assert((|v: Value| e.hit(v)) =~= (|v: Value| at_index_hit(v, tgt_idx as int, |x: Value| x is Class)));
        lemma_tree_hit_any(e, old(t)@, LOADINFO_CLS, HUNTER_ARRAY_FIELD);
    }
    if edit_tree(&e, t, LOADINFO_CLS, HUNTER_ARRAY_FIELD) {
        Ok(replaced.len())
    } else {
        Err(SysEditError::TgtEntryNotFound)
    }
}

} // verus!

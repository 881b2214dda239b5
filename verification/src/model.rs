//! The decoded save as plain data: top-level classes keyed by a hash, each
//! class a list of hashed fields, each field a typed value.

use vstd::prelude::*;

verus! {

/// An enumeration value, stored with the width the schema gives it.
#[derive(Debug, Clone, Copy, PartialEq, Eq)]
pub enum EnumValue {
    E1(i8),
    E2(i16),
    E4(i32),
    E8(i64),
}

/// The declared member type of an array, as far as edits tell them apart.
#[derive(Debug, Clone, Copy, PartialEq, Eq)]
pub enum FieldType {
    U8,
    U16,
    U32,
    U64,
    S8,
    S16,
    S32,
    S64,
    Boolean,
    Enum,
    /// Any other member type.
    Other,
}

/// An array field: its declared member type and its elements.
pub struct Array {
    pub member_type: FieldType,
    pub values: Vec<FieldValue>,
}

/// A field value. Floating-point values are held by their IEEE-754 bit
/// patterns; strings as UTF-16 code units; structs as raw bytes.
pub enum FieldValue {
    Array(Array),
    Enum(EnumValue),
    Boolean(bool),
    S8(i8),
    U8(u8),
    S16(i16),
    U16(u16),
    S32(i32),
    U32(u32),
    S64(i64),
    U64(u64),
    F32(u32),
    F64(u64),
    C8(u8),
    C16(u16),
    String(Vec<u16>),
    Struct(Vec<u8>),
    Class(Box<Class>),
    Unknown,
}

/// A field of a class, identified by the hash of its name.
pub struct Field {
    pub hash: u32,
    pub value: FieldValue,
}

/// A class instance: the hash of its type name and its fields, in order.
pub struct Class {
    pub hash: u32,
    pub fields: Vec<Field>,
}

/// A decoded save: its top-level classes, each under the hash of the field
/// that holds it.
pub struct SaveTree {
    pub fields: Vec<(u32, Class)>,
}

/// The mathematical value of a field.
pub enum Value {
    Array(FieldType, Seq<Value>),
    Enum(EnumValue),
    Boolean(bool),
    S8(i8),
    U8(u8),
    S16(i16),
    U16(u16),
    S32(i32),
    U32(u32),
    S64(i64),
    U64(u64),
    F32(u32),
    F64(u64),
    C8(u8),
    C16(u16),
    Str(Seq<u16>),
    Struct(Seq<u8>),
    Class(ClassV),
    Unknown,
}

/// The mathematical value of a class: its hash and its (field hash, value)
/// pairs.
pub struct ClassV {
    pub hash: u32,
    pub fields: Seq<(u32, Value)>,
}

pub open spec fn value_view(v: FieldValue) -> Value
    decreases v,
{
    proof {
        broadcast use vstd::std_specs::vec::axiom_vec_decreases_to_view;
    }
    match v {
        FieldValue::Array(a) => Value::Array(
            a.member_type,
            Seq::new(
                a.values@.len(),
                |i: int|
                    if 0 <= i < a.values@.len() {
                        value_view(a.values@[i])
                    } else {
                        Value::Unknown
                    },
            ),
        ),
        FieldValue::Enum(e) => Value::Enum(e),
        FieldValue::Boolean(b) => Value::Boolean(b),
        FieldValue::S8(x) => Value::S8(x),
        FieldValue::U8(x) => Value::U8(x),
        FieldValue::S16(x) => Value::S16(x),
        FieldValue::U16(x) => Value::U16(x),
        FieldValue::S32(x) => Value::S32(x),
        FieldValue::U32(x) => Value::U32(x),
        FieldValue::S64(x) => Value::S64(x),
        FieldValue::U64(x) => Value::U64(x),
        FieldValue::F32(x) => Value::F32(x),
        FieldValue::F64(x) => Value::F64(x),
        FieldValue::C8(x) => Value::C8(x),
        FieldValue::C16(x) => Value::C16(x),
        FieldValue::String(s) => Value::Str(s@),
        FieldValue::Struct(s) => Value::Struct(s@),
        FieldValue::Class(c) => Value::Class(
            ClassV {
                hash: c.hash,
                fields: Seq::new(
                    c.fields@.len(),
                    |i: int|
                        if 0 <= i < c.fields@.len() {
                            (c.fields@[i].hash, value_view(c.fields@[i].value))
                        } else {
                            (0u32, Value::Unknown)
                        },
                ),
            },
        ),
        FieldValue::Unknown => Value::Unknown,
    }
}

pub open spec fn class_view(c: Class) -> ClassV {
    ClassV {
        hash: c.hash,
        fields: Seq::new(
            c.fields@.len(),
            |i: int|
                if 0 <= i < c.fields@.len() {
                    (c.fields@[i].hash, value_view(c.fields@[i].value))
                } else {
                    (0u32, Value::Unknown)
                },
        ),
    }
}

pub open spec fn tree_view(t: SaveTree) -> Seq<(u32, ClassV)> {
    Seq::new(t.fields@.len(), |i: int| (t.fields@[i].0, class_view(t.fields@[i].1)))
}

impl View for FieldValue {
    type V = Value;

    open spec fn view(&self) -> Value {
        value_view(*self)
    }
}

impl View for Class {
    type V = ClassV;

    open spec fn view(&self) -> ClassV {
        class_view(*self)
    }
}

impl View for SaveTree {
    type V = Seq<(u32, ClassV)>;

    open spec fn view(&self) -> Seq<(u32, ClassV)> {
        tree_view(*self)
    }
}

pub proof fn lemma_class_value_view(c: Class)
    ensures
        value_view(FieldValue::Class(Box::new(c))) == Value::Class(class_view(c)),
{
    assert(value_view(FieldValue::Class(Box::new(c)))->Class_0.fields =~= class_view(c).fields);
}

} // verus!

verus! {

/// `k` is the first entry of `t` stored under `h`.
pub open spec fn is_first_key<X>(t: Seq<(u32, X)>, h: u32, k: int) -> bool {
    &&& 0 <= k < t.len()
    &&& t[k].0 == h
    &&& forall|j: int| 0 <= j < k ==> #[trigger] t[j].0 != h
}

/// The index of the first entry of `t` stored under `h`, or -1 when there is
/// none.
pub open spec fn first_key<X>(t: Seq<(u32, X)>, h: u32) -> int {
    if exists|k: int| is_first_key(t, h, k) {
        choose|k: int| is_first_key(t, h, k)
    } else {
        -1
    }
}

pub proof fn lemma_first_key<X>(t: Seq<(u32, X)>, h: u32, k: int)
    requires
        is_first_key(t, h, k),
    ensures
        first_key(t, h) == k,
{
    let c = choose|k: int| is_first_key(t, h, k);
    assert(is_first_key(t, h, c));
    if c < k {
        assert(t[c].0 != h);
    } else if k < c {
        assert(t[k].0 != h);
    }
}

pub proof fn lemma_no_key<X>(t: Seq<(u32, X)>, h: u32)
    requires
        forall|j: int| 0 <= j < t.len() ==> #[trigger] t[j].0 != h,
    ensures
        first_key(t, h) == -1,
{
}

pub proof fn lemma_first_key_range<X>(t: Seq<(u32, X)>, h: u32)
    ensures
        first_key(t, h) == -1 || is_first_key(t, h, first_key(t, h)),
        first_key(t, h) == -1 ==> forall|j: int| 0 <= j < t.len() ==> #[trigger] t[j].0 != h,
{
    if !exists|k: int| is_first_key(t, h, k) {
        assert forall|j: int| 0 <= j < t.len() implies #[trigger] t[j].0 != h by {
            if t[j].0 == h {
                lemma_exists_first(t, h, j);
            }
        }
    }
}

proof fn lemma_exists_first<X>(t: Seq<(u32, X)>, h: u32, j: int)
    requires
        0 <= j < t.len(),
        t[j].0 == h,
    ensures
        exists|k: int| is_first_key(t, h, k),
    decreases j,
{
    if forall|i: int| 0 <= i < j ==> #[trigger] t[i].0 != h {
        assert(is_first_key(t, h, j));
    } else {
        let i = choose|i: int| 0 <= i < j && #[trigger] t[i].0 == h;
        lemma_exists_first(t, h, i);
    }
}

/// Index of the first top-level class stored under `h`.
pub fn find_top(entries: &Vec<(u32, Class)>, h: u32) -> (r: Option<usize>)
    ensures
        match r {
            Some(k) => is_first_key(tree_view(SaveTree { fields: *entries }), h, k as int)
                && entries@[k as int].0 == h,
            None => first_key(tree_view(SaveTree { fields: *entries }), h) == -1,
        },
{
    let ghost tv = tree_view(SaveTree { fields: *entries });
    let mut i: usize = 0;
    while i < entries.len()
        invariant
            i <= entries@.len(),
            tv == tree_view(SaveTree { fields: *entries }),
            forall|j: int| 0 <= j < i ==> #[trigger] tv[j].0 != h,
        decreases entries@.len() - i,
    {
        if entries[i].0 == h {
            return Some(i);
        }
        i += 1;
    }
    proof {
        lemma_no_key(tv, h);
    }
    None
}

} // verus!

verus! {

/// A copy of a sequence of plain values.
pub fn copy_seq<T: Copy>(v: &Vec<T>) -> (r: Vec<T>)
    ensures
        r@ == v@,
{
    let mut out: Vec<T> = Vec::new();
    let mut i: usize = 0;
    while i < v.len()
        invariant
            i <= v@.len(),
            out@ == v@.take(i as int),
        decreases v@.len() - i,
    {
        out.push(v[i]);
        proof {
            assert(v@.take(i + 1) =~= v@.take(i as int).push(v@[i as int]));
        }
        i += 1;
    }
    assert(v@.take(v@.len() as int) =~= v@);
    out
}

impl FieldValue {
    /// A deep copy of the value.
    pub fn duplicate(&self) -> (r: FieldValue)
        ensures
            r@ == self@,
        decreases self,
    {
        match self {
            FieldValue::Array(a) => {
                let mut out: Vec<FieldValue> = Vec::new();
                let mut i: usize = 0;
                while i < a.values.len()
                    invariant
                        i <= a.values@.len(),
                        *self == FieldValue::Array(*a),
                        out@.len() == i,
                        forall|j: int| 0 <= j < i ==> value_view(#[trigger] out@[j]) == value_view(a.values@[j]),
                    decreases a.values@.len() - i,
                {
                    proof {
                        broadcast use vstd::std_specs::vec::axiom_vec_decreases_to_view;
                        assert(decreases_to!(*self => (*self)->Array_0));
                        assert(decreases_to!(*a => a.values));
                        assert(decreases_to!(a.values => a.values@));
                        assert(decreases_to!(a.values@ => a.values@[i as int]));
                    }
                    let x = a.values[i].duplicate();
                    out.push(x);
                    i += 1;
                }
                let r = FieldValue::Array(Array { member_type: a.member_type, values: out });
                assert(value_view(r)->Array_1 =~= value_view(*self)->Array_1);
                r
            },
            FieldValue::Class(c) => {
                let mut out: Vec<Field> = Vec::new();
                let mut i: usize = 0;
                while i < c.fields.len()
                    invariant
                        i <= c.fields@.len(),
                        *self == FieldValue::Class(*c),
                        out@.len() == i,
                        forall|j: int| 0 <= j < i ==> (#[trigger] out@[j]).hash == c.fields@[j].hash
                            && value_view(out@[j].value) == value_view(c.fields@[j].value),
                    decreases c.fields@.len() - i,
                {
                    proof {
                        broadcast use vstd::std_specs::vec::axiom_vec_decreases_to_view;
                        assert(decreases_to!(*self => (*self)->Class_0));
                        assert(decreases_to!((*self)->Class_0 => ((*self)->Class_0).fields));
                        assert(decreases_to!(c.fields => c.fields@));
                        assert(decreases_to!(c.fields@ => c.fields@[i as int]));
                        assert(decreases_to!(c.fields@[i as int] => c.fields@[i as int].value));
                    }
                    let x = c.fields[i].value.duplicate();
                    out.push(Field { hash: c.fields[i].hash, value: x });
                    i += 1;
                }
                let r = FieldValue::Class(Box::new(Class { hash: c.hash, fields: out }));
                assert(value_view(r)->Class_0.fields =~= value_view(*self)->Class_0.fields);
                r
            },
            FieldValue::Enum(e) => FieldValue::Enum(*e),
            FieldValue::Boolean(b) => FieldValue::Boolean(*b),
            FieldValue::S8(x) => FieldValue::S8(*x),
            FieldValue::U8(x) => FieldValue::U8(*x),
            FieldValue::S16(x) => FieldValue::S16(*x),
            FieldValue::U16(x) => FieldValue::U16(*x),
            FieldValue::S32(x) => FieldValue::S32(*x),
            FieldValue::U32(x) => FieldValue::U32(*x),
            FieldValue::S64(x) => FieldValue::S64(*x),
            FieldValue::U64(x) => FieldValue::U64(*x),
            FieldValue::F32(x) => FieldValue::F32(*x),
            FieldValue::F64(x) => FieldValue::F64(*x),
            FieldValue::C8(x) => FieldValue::C8(*x),
            FieldValue::C16(x) => FieldValue::C16(*x),
            FieldValue::String(s) => FieldValue::String(copy_seq(s)),
            FieldValue::Struct(s) => FieldValue::Struct(copy_seq(s)),
            FieldValue::Unknown => FieldValue::Unknown,
        }
    }
}

impl Class {
    /// A deep copy of the class.
    pub fn duplicate(&self) -> (r: Class)
        ensures
            r@ == self@,
    {
        let mut out: Vec<Field> = Vec::new();
        let mut i: usize = 0;
        while i < self.fields.len()
            invariant
                i <= self.fields@.len(),
                out@.len() == i,
                forall|j: int| 0 <= j < i ==> (#[trigger] out@[j]).hash == self.fields@[j].hash
                    && value_view(out@[j].value) == value_view(self.fields@[j].value),
            decreases self.fields@.len() - i,
        {
            let x = self.fields[i].value.duplicate();
            out.push(Field { hash: self.fields[i].hash, value: x });
            i += 1;
        }
        let r = Class { hash: self.hash, fields: out };
        assert(class_view(r).fields =~= class_view(*self).fields);
        r
    }
}

} // verus!

verus! {

/// Replacing the class of one top-level entry replaces its view.
pub proof fn lemma_tree_set_class(a: SaveTree, b: SaveTree, d: int, c: Class)
    requires
        0 <= d < a.fields@.len(),
        b.fields@ == a.fields@.update(d, (a.fields@[d].0, c)),
    ensures
        tree_view(b) == tree_view(a).update(d, (a.fields@[d].0, class_view(c))),
{
    assert(tree_view(b) =~= tree_view(a).update(d, (a.fields@[d].0, class_view(c))));
}

/// Replacing the value of one field replaces its view.
pub proof fn lemma_class_set_value(a: Class, b: Class, j: int, v: FieldValue)
    requires
        0 <= j < a.fields@.len(),
        b.hash == a.hash,
        b.fields@ == a.fields@.update(j, Field { hash: a.fields@[j].hash, value: v }),
    ensures
        class_view(b) == (ClassV {
            hash: a.hash,
            fields: class_view(a).fields.update(j, (a.fields@[j].hash, value_view(v))),
        }),
{
    assert(class_view(b).fields =~= class_view(a).fields.update(j, (a.fields@[j].hash, value_view(v))));
}

/// Replacing one element of an array replaces its view.
pub proof fn lemma_array_set(mt: FieldType, a: Vec<FieldValue>, b: Vec<FieldValue>, k: int, v: FieldValue)
    requires
        0 <= k < a@.len(),
        b@ == a@.update(k, v),
    ensures
        value_view(FieldValue::Array(Array { member_type: mt, values: b })) == Value::Array(
            mt,
            value_view(FieldValue::Array(Array { member_type: mt, values: a }))->Array_1.update(k, value_view(v)),
        ),
{
    assert(value_view(FieldValue::Array(Array { member_type: mt, values: b }))->Array_1 =~= value_view(
        FieldValue::Array(Array { member_type: mt, values: a }),
    )->Array_1.update(k, value_view(v)));
}

} // verus!

verus! {

/// The variant of a value, without its contents.
pub open spec fn same_variant(a: Value, b: Value) -> bool {
    match (a, b) {
        (Value::Array(_, _), Value::Array(_, _)) => true,
        (Value::Enum(_), Value::Enum(_)) => true,
        (Value::Boolean(_), Value::Boolean(_)) => true,
        (Value::S8(_), Value::S8(_)) => true,
        (Value::U8(_), Value::U8(_)) => true,
        (Value::S16(_), Value::S16(_)) => true,
        (Value::U16(_), Value::U16(_)) => true,
        (Value::S32(_), Value::S32(_)) => true,
        (Value::U32(_), Value::U32(_)) => true,
        (Value::S64(_), Value::S64(_)) => true,
        (Value::U64(_), Value::U64(_)) => true,
        (Value::F32(_), Value::F32(_)) => true,
        (Value::F64(_), Value::F64(_)) => true,
        (Value::C8(_), Value::C8(_)) => true,
        (Value::C16(_), Value::C16(_)) => true,
        (Value::Str(_), Value::Str(_)) => true,
        (Value::Struct(_), Value::Struct(_)) => true,
        (Value::Class(_), Value::Class(_)) => true,
        (Value::Unknown, Value::Unknown) => true,
        _ => false,
    }
}

/// Whether two values are of the same variant.
pub fn same_kind(a: &FieldValue, b: &FieldValue) -> (r: bool)
    ensures
        r == same_variant(a@, b@),
{
    match (a, b) {
        (FieldValue::Array(_), FieldValue::Array(_)) => true,
        (FieldValue::Enum(_), FieldValue::Enum(_)) => true,
        (FieldValue::Boolean(_), FieldValue::Boolean(_)) => true,
        (FieldValue::S8(_), FieldValue::S8(_)) => true,
        (FieldValue::U8(_), FieldValue::U8(_)) => true,
        (FieldValue::S16(_), FieldValue::S16(_)) => true,
        (FieldValue::U16(_), FieldValue::U16(_)) => true,
        (FieldValue::S32(_), FieldValue::S32(_)) => true,
        (FieldValue::U32(_), FieldValue::U32(_)) => true,
        (FieldValue::S64(_), FieldValue::S64(_)) => true,
        (FieldValue::U64(_), FieldValue::U64(_)) => true,
        (FieldValue::F32(_), FieldValue::F32(_)) => true,
        (FieldValue::F64(_), FieldValue::F64(_)) => true,
        (FieldValue::C8(_), FieldValue::C8(_)) => true,
        (FieldValue::C16(_), FieldValue::C16(_)) => true,
        (FieldValue::String(_), FieldValue::String(_)) => true,
        (FieldValue::Struct(_), FieldValue::Struct(_)) => true,
        (FieldValue::Class(_), FieldValue::Class(_)) => true,
        (FieldValue::Unknown, FieldValue::Unknown) => true,
        _ => false,
    }
}

impl DeepView for Field {
    type V = (u32, Value);

    open spec fn deep_view(&self) -> (u32, Value) {
        (self.hash, self.value@)
    }
}

} // verus!

verus! {

impl DeepView for Class {
    type V = ClassV;

    open spec fn deep_view(&self) -> ClassV {
        self@
    }
}

} // verus!

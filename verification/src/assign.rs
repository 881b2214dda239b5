//! Field assignments read from a tab-separated listing. Each line names a
//! dotted field path (`a.b[3].c`), a kind (`VAL` or `ARRAY`) and the new
//! value as text; the assignments are written into one top-level class.

use vstd::prelude::*;
use crate::model::{SaveTree, Class, ClassV, FieldValue, Value, FieldType, EnumValue, value_view, class_view,
    first_key, lemma_first_key, lemma_class_set_value, lemma_array_set, lemma_class_value_view,
    lemma_tree_set_class};
use crate::strparse::{trimmed, trim, trimmed_end, index_of, lemma_index_of, split_on, parse_in_range, chars_of, trim_end,
    find_char, substr, split_chars, parse_int};

verus! {

/// One assignment line: the field path, the kind and the value text.
pub struct Assignment {
    pub path: Vec<char>,
    pub kind: Vec<char>,
    pub rest: Vec<char>,
}

impl DeepView for Assignment {
    type V = (Seq<char>, Seq<char>, Seq<char>);

    open spec fn deep_view(&self) -> (Seq<char>, Seq<char>, Seq<char>) {
        (self.path@, self.kind@, self.rest@)
    }
}

/// The assignment that a line holds: the line without trailing whitespace,
/// cut at its first two tabs. A line with fewer than two tabs holds none.
pub open spec fn line_assignment(l: Seq<char>) -> Option<(Seq<char>, Seq<char>, Seq<char>)> {
    let t = trimmed_end(l);
    let a = index_of(t, '\t');
    if a < 0 {
        None
    } else {
        let r = t.skip(a + 1);
        let b = index_of(r, '\t');
        if b < 0 {
            None
        } else {
            Some((t.take(a), r.take(b), r.skip(b + 1)))
        }
    }
}

/// The assignments of the lines, in order.
pub open spec fn assignments_in(lines: Seq<Seq<char>>) -> Seq<(Seq<char>, Seq<char>, Seq<char>)>
    decreases lines.len(),
{
    if lines.len() == 0 {
        Seq::empty()
    } else {
        let before = assignments_in(lines.drop_last());
        match line_assignment(lines.last()) {
            Some(a) => before.push(a),
            None => before,
        }
    }
}

/// The assignments of a listing, line by line.
pub open spec fn listing_assignments(text: Seq<char>) -> Seq<(Seq<char>, Seq<char>, Seq<char>)> {
    assignments_in(split_on(text, '\n'))
}

/// The assignment of one line, if it has one.
pub fn parse_line(l: &[char]) -> (r: Option<Assignment>)
    ensures
        match r {
            Some(a) => line_assignment(l@) == Some(a.deep_view()),
            None => line_assignment(l@) is None,
        },
{
    let t = trim_end(l);
    let n = t.len();
    let ghost tv = t@;
    proof {
        lemma_index_of(tv, '\t');
        assert(tv.skip(0) =~= tv);
    }
    match find_char(t.as_slice(), 0, '\t') {
        None => None,
        Some(a) => {
            let ghost r = tv.skip(a + 1);
            proof {
                lemma_index_of(r, '\t');
            }
            match find_char(t.as_slice(), a + 1, '\t') {
                None => None,
                Some(b) => {
                    let path = substr(t.as_slice(), 0, a);
                    let kind = substr(t.as_slice(), a + 1, b);
                    let rest = substr(t.as_slice(), b + 1, n);
                    proof {
                        assert(path@ =~= tv.take(a as int));
                        assert(kind@ =~= r.take(b - a - 1));
                        assert(rest@ =~= r.skip(b - a));
                    }
                    Some(Assignment { path, kind, rest })
                },
            }
        },
    }
}

/// The assignments of a listing, in the order of its lines.
pub fn read_assignments(text: &str) -> (r: Vec<Assignment>)
    ensures
        r.deep_view() == listing_assignments(text@),
{
    let cs = chars_of(text);
    let lines = split_chars(cs.as_slice(), '\n');
    let ghost lv = lines.deep_view();
    let mut out: Vec<Assignment> = Vec::new();
    let mut i: usize = 0;
    while i < lines.len()
        invariant
            i <= lines@.len(),
            lv == lines.deep_view(),
            out.deep_view() == assignments_in(lv.take(i as int)),
        decreases lines@.len() - i,
    {
        proof {
            assert(lv.take(i + 1).drop_last() =~= lv.take(i as int));
            assert(lines@[i as int]@ == lv[i as int]);
        }
        let ghost before = out.deep_view();
        match parse_line(lines[i].as_slice()) {
            Some(a) => {
                out.push(a);
                proof {
                    assert(out.deep_view() =~= before.push(a.deep_view()));
                }
            },
            None => {},
        }
        i += 1;
    }
    proof {
        assert(lv.take(lines@.len() as int) =~= lv);
    }
    out
}

/// `s` without the copies of `c` it starts with.
pub open spec fn strip_leading(s: Seq<char>, c: char) -> Seq<char>
    decreases s.len(),
{
    if s.len() > 0 && s[0] == c {
        strip_leading(s.drop_first(), c)
    } else {
        s
    }
}

/// `s` without the copies of `c` it ends with.
pub open spec fn strip_trailing(s: Seq<char>, c: char) -> Seq<char>
    decreases s.len(),
{
    if s.len() > 0 && s.last() == c {
        strip_trailing(s.drop_last(), c)
    } else {
        s
    }
}

/// One step of a field path: the hash of a field name, and the array index
/// that follows the name in brackets, where one is given and reads as a
/// number.
pub struct PathPart {
    pub hash: u32,
    pub index: Option<usize>,
}

impl DeepView for PathPart {
    type V = (u32, Option<usize>);

    open spec fn deep_view(&self) -> (u32, Option<usize>) {
        (self.hash, self.index)
    }
}

/// The name of a path segment: the text before its first `[`.
pub open spec fn segment_name(seg: Seq<char>) -> Seq<char> {
    let b = index_of(seg, '[');
    if b < 0 {
        seg
    } else {
        seg.take(b)
    }
}

/// The index of a path segment: the text from its first `[` on, without
/// leading `[` and trailing `]`, read as a `usize`.
pub open spec fn segment_index(seg: Seq<char>) -> Option<usize> {
    let b = index_of(seg, '[');
    if b < 0 {
        None
    } else {
        match parse_in_range(strip_trailing(strip_leading(seg.skip(b), '['), ']'), false, 0, usize::MAX as int) {
            Some(n) => Some(n as usize),
            None => None,
        }
    }
}

/// A path segment as a step: the hash of its UTF-8 name and its index.
pub open spec fn segment_part(seg: Seq<char>) -> (u32, Option<usize>) {
    (crate::murmur::murmur3(vstd::utf8::encode_utf8(segment_name(seg))), segment_index(seg))
}

/// The steps of a dotted path.
pub open spec fn path_parts(path: Seq<char>) -> Seq<(u32, Option<usize>)> {
    split_on(path, '.').map_values(|seg: Seq<char>| segment_part(seg))
}

/// `s[from..]` without leading `[` and trailing `]`.
fn strip_brackets(s: &[char], from: usize) -> (r: Vec<char>)
    requires
        from <= s@.len(),
    ensures
        r@ == strip_trailing(strip_leading(s@.skip(from as int), '['), ']'),
{
    let n = s.len();
    let mut b = from;
    while b < n && s[b] == '['
        invariant
            from <= b <= n,
            n == s@.len(),
            strip_leading(s@.skip(from as int), '[') == strip_leading(s@.skip(b as int), '['),
        decreases n - b,
    {
        proof {
            assert(s@.skip(b as int).drop_first() =~= s@.skip(b + 1));
        }
        b += 1;
    }
    let mut e = n;
    proof {
        assert(strip_leading(s@.skip(b as int), '[') == s@.skip(b as int));
        assert(s@.subrange(b as int, e as int) =~= s@.skip(b as int));
    }
    while e > b && s[e - 1] == ']'
        invariant
            b <= e <= n,
            n == s@.len(),
            strip_trailing(s@.skip(b as int), ']') == strip_trailing(s@.subrange(b as int, e as int), ']'),
        decreases e,
    {
        proof {
            assert(s@.subrange(b as int, e as int).drop_last() =~= s@.subrange(b as int, e - 1));
        }
        e -= 1;
    }
    let r = substr(s, b, e);
    proof {
        assert(r@ =~= s@.subrange(b as int, e as int));
    }
    r
}

/// The step that a path segment names.
pub fn parse_segment(seg: &[char]) -> (r: PathPart)
    ensures
        r.deep_view() == segment_part(seg@),
{
    proof {
        lemma_index_of(seg@, '[');
        assert(seg@.skip(0) =~= seg@);
    }
    match find_char(seg, 0, '[') {
        None => {
            let hash = crate::text::name_hash_chars(seg);
            PathPart { hash, index: None }
        },
        Some(b) => {
            let name = substr(seg, 0, b);
            proof {
                assert(name@ =~= seg@.take(b as int));
            }
            let hash = crate::text::name_hash_chars(name.as_slice());
            let digits = strip_brackets(seg, b);
            let index = match parse_int(digits.as_slice(), false, 0, usize::MAX as i128) {
                Some(v) => Some(v as usize),
                None => None,
            };
            PathPart { hash, index }
        },
    }
}

/// The steps of a dotted path, one per segment.
pub fn parse_path(path: &[char]) -> (r: Vec<PathPart>)
    ensures
        r.deep_view() == path_parts(path@),
{
    let segs = split_chars(path, '.');
    let ghost sv = segs.deep_view();
    let mut out: Vec<PathPart> = Vec::new();
    let mut i: usize = 0;
    while i < segs.len()
        invariant
            i <= segs@.len(),
            sv == segs.deep_view(),
            sv == split_on(path@, '.'),
            out@.len() == i,
            forall|j: int| 0 <= j < i ==> #[trigger] out@[j].deep_view() == segment_part(sv[j]),
        decreases segs@.len() - i,
    {
        proof {
            assert(segs@[i as int]@ == sv[i as int]);
        }
        let p = parse_segment(segs[i].as_slice());
        out.push(p);
        i += 1;
    }
    proof {
        assert(out.deep_view() =~= path_parts(path@));
    }
    out
}

/// A value text read as floating-point numbers, each by its IEEE-754 bit
/// pattern, where the text reads as one.
#[derive(Clone, Copy, Debug, PartialEq, Eq)]
pub struct FloatText {
    pub as_f32: Option<u32>,
    pub as_f64: Option<u64>,
}

impl DeepView for FloatText {
    type V = FloatText;

    open spec fn deep_view(&self) -> FloatText {
        *self
    }
}

/// The text reads as an integer in `lo..=hi` (Rust's decimal syntax).
pub open spec fn int_text(t: Seq<char>, signed: bool, lo: int, hi: int) -> Option<int> {
    parse_in_range(t, signed, lo, hi)
}

/// The text is `true` or `false`.
pub open spec fn bool_text(t: Seq<char>) -> Option<bool> {
    if t == seq!['t', 'r', 'u', 'e'] {
        Some(true)
    } else if t == seq!['f', 'a', 'l', 's', 'e'] {
        Some(false)
    } else {
        None
    }
}

/// A scalar of the same variant as `v`, read from `t`; `None` where `t` does
/// not read as one, or `v` is not a scalar that a text can give. An enum reads
/// its text, trimmed, as an `i32`, cut to the enum's width.
pub open spec fn scalar_from_text(v: Value, t: Seq<char>, fl: FloatText) -> Option<Value> {
    match v {
        Value::U8(_) => match int_text(t, false, 0, 0xff) {
            Some(n) => Some(Value::U8(n as u8)),
            None => None,
        },
        Value::U16(_) => match int_text(t, false, 0, 0xffff) {
            Some(n) => Some(Value::U16(n as u16)),
            None => None,
        },
        Value::U32(_) => match int_text(t, false, 0, 0xffff_ffff) {
            Some(n) => Some(Value::U32(n as u32)),
            None => None,
        },
        Value::U64(_) => match int_text(t, false, 0, 0xffff_ffff_ffff_ffff) {
            Some(n) => Some(Value::U64(n as u64)),
            None => None,
        },
        Value::S8(_) => match int_text(t, true, -0x80, 0x7f) {
            Some(n) => Some(Value::S8(n as i8)),
            None => None,
        },
        Value::S16(_) => match int_text(t, true, -0x8000, 0x7fff) {
            Some(n) => Some(Value::S16(n as i16)),
            None => None,
        },
        Value::S32(_) => match int_text(t, true, -0x8000_0000, 0x7fff_ffff) {
            Some(n) => Some(Value::S32(n as i32)),
            None => None,
        },
        Value::S64(_) => match int_text(t, true, -0x8000_0000_0000_0000, 0x7fff_ffff_ffff_ffff) {
            Some(n) => Some(Value::S64(n as i64)),
            None => None,
        },
        Value::F32(_) => match fl.as_f32 {
            Some(b) => Some(Value::F32(b)),
            None => None,
        },
        Value::F64(_) => match fl.as_f64 {
            Some(b) => Some(Value::F64(b)),
            None => None,
        },
        Value::Boolean(_) => match bool_text(t) {
            Some(b) => Some(Value::Boolean(b)),
            None => None,
        },
        Value::Enum(e) => match int_text(trimmed(t), true, -0x8000_0000, 0x7fff_ffff) {
            Some(n) => Some(
                Value::Enum(
                    match e {
                        EnumValue::E1(_) => EnumValue::E1(n as i8),
                        EnumValue::E2(_) => EnumValue::E2(n as i16),
                        EnumValue::E4(_) => EnumValue::E4(n as i32),
                        EnumValue::E8(_) => EnumValue::E8(n as i64),
                    },
                ),
            ),
            None => None,
        },
        _ => None,
    }
}

/// Read `t` into a scalar of the variant of `v`.
pub fn scalar_from(v: &FieldValue, t: &[char], fl: FloatText) -> (r: Option<FieldValue>)
    ensures
        match r {
            Some(nv) => scalar_from_text(v@, t@, fl) == Some(nv@),
            None => scalar_from_text(v@, t@, fl) is None,
        },
{
    match v {
        FieldValue::U8(_) => match parse_int(t, false, 0, 0xff) {
            Some(n) => Some(FieldValue::U8(n as u8)),
            None => None,
        },
        FieldValue::U16(_) => match parse_int(t, false, 0, 0xffff) {
            Some(n) => Some(FieldValue::U16(n as u16)),
            None => None,
        },
        FieldValue::U32(_) => match parse_int(t, false, 0, 0xffff_ffff) {
            Some(n) => Some(FieldValue::U32(n as u32)),
            None => None,
        },
        FieldValue::U64(_) => match parse_int(t, false, 0, 0xffff_ffff_ffff_ffff) {
            Some(n) => Some(FieldValue::U64(n as u64)),
            None => None,
        },
        FieldValue::S8(_) => match parse_int(t, true, -0x80, 0x7f) {
            Some(n) => Some(FieldValue::S8(n as i8)),
            None => None,
        },
        FieldValue::S16(_) => match parse_int(t, true, -0x8000, 0x7fff) {
            Some(n) => Some(FieldValue::S16(n as i16)),
            None => None,
        },
        FieldValue::S32(_) => match parse_int(t, true, -0x8000_0000, 0x7fff_ffff) {
            Some(n) => Some(FieldValue::S32(n as i32)),
            None => None,
        },
        FieldValue::S64(_) => match parse_int(t, true, -0x8000_0000_0000_0000, 0x7fff_ffff_ffff_ffff) {
            Some(n) => Some(FieldValue::S64(n as i64)),
            None => None,
        },
        FieldValue::F32(_) => match fl.as_f32 {
            Some(b) => Some(FieldValue::F32(b)),
            None => None,
        },
        FieldValue::F64(_) => match fl.as_f64 {
            Some(b) => Some(FieldValue::F64(b)),
            None => None,
        },
        FieldValue::Boolean(_) => {
            if t.len() == 4 && t[0] == 't' && t[1] == 'r' && t[2] == 'u' && t[3] == 'e' {
                proof {
                    assert(t@ =~= seq!['t', 'r', 'u', 'e']);
                }
                Some(FieldValue::Boolean(true))
            } else if t.len() == 5 && t[0] == 'f' && t[1] == 'a' && t[2] == 'l' && t[3] == 's' && t[4] == 'e' {
                proof {
                    assert(t@ =~= seq!['f', 'a', 'l', 's', 'e']);
                }
                Some(FieldValue::Boolean(false))
            } else {
                proof {
                    if t@ == seq!['t', 'r', 'u', 'e'] {
                        assert(t@[0] == 't' && t@[3] == 'e');
                    }
                    if t@ == seq!['f', 'a', 'l', 's', 'e'] {
                        assert(t@[0] == 'f' && t@[4] == 'e');
                    }
                }
                None
            }
        },
        FieldValue::Enum(e) => {
            let tt = trim(t);
            match parse_int(tt.as_slice(), true, -0x8000_0000, 0x7fff_ffff) {
                Some(n) => {
                    let n32 = n as i32;
                    let ne = match e {
                        EnumValue::E1(_) => EnumValue::E1(n32 as i8),
                        EnumValue::E2(_) => EnumValue::E2(n32 as i16),
                        EnumValue::E4(_) => EnumValue::E4(n32),
                        EnumValue::E8(_) => EnumValue::E8(n32 as i64),
                    };
                    Some(FieldValue::Enum(ne))
                },
                None => None,
            }
        },
        _ => None,
    }
}

/// The number `x` in an element of the variant of `base` (cut to its
/// width; nonzero for a boolean; an `S32` for a variant that holds no number).
pub open spec fn cast_like(base: Value, x: i64) -> Value {
    match base {
        Value::U32(_) => Value::U32(x as u32),
        Value::S32(_) => Value::S32(x as i32),
        Value::U64(_) => Value::U64(x as u64),
        Value::S64(_) => Value::S64(x),
        Value::U16(_) => Value::U16(x as u16),
        Value::S16(_) => Value::S16(x as i16),
        Value::U8(_) => Value::U8(x as u8),
        Value::S8(_) => Value::S8(x as i8),
        Value::Enum(e) => Value::Enum(
            match e {
                EnumValue::E1(_) => EnumValue::E1(x as i8),
                EnumValue::E2(_) => EnumValue::E2(x as i16),
                EnumValue::E4(_) => EnumValue::E4(x as i32),
                EnumValue::E8(_) => EnumValue::E8(x),
            },
        ),
        Value::Boolean(_) => Value::Boolean(x != 0),
        _ => Value::S32(x as i32),
    }
}

/// The zero element of a member type, for the types that have one here.
pub open spec fn default_elem(mt: FieldType) -> Option<Value> {
    match mt {
        FieldType::U8 => Some(Value::U8(0)),
        FieldType::U16 => Some(Value::U16(0)),
        FieldType::U32 => Some(Value::U32(0)),
        FieldType::U64 => Some(Value::U64(0)),
        FieldType::S8 => Some(Value::S8(0)),
        FieldType::S16 => Some(Value::S16(0)),
        FieldType::S32 => Some(Value::S32(0)),
        FieldType::S64 => Some(Value::S64(0)),
        FieldType::Boolean => Some(Value::Boolean(false)),
        FieldType::Enum => Some(Value::Enum(EnumValue::E4(0))),
        FieldType::Other => None,
    }
}

/// The element whose variant the new element `i` takes: the old element `i`,
/// else the first old element, else the zero of the member type.
pub open spec fn elem_base(old: Seq<Value>, mt: FieldType, i: int) -> Value {
    if i < old.len() {
        old[i]
    } else if old.len() > 0 {
        old[0]
    } else {
        default_elem(mt)->Some_0
    }
}

/// The element that pads a rebuilt array: the first old element, else a
/// `U32` zero.
pub open spec fn pad_elem(old: Seq<Value>) -> Value {
    if old.len() == 0 {
        Value::U32(0)
    } else {
        old[0]
    }
}

/// The pieces that read, trimmed, as `i64`, in order.
pub open spec fn numbers_in(pieces: Seq<Seq<char>>) -> Seq<i64>
    decreases pieces.len(),
{
    if pieces.len() == 0 {
        Seq::empty()
    } else {
        let before = numbers_in(pieces.drop_last());
        match int_text(trimmed(pieces.last()), true, -0x8000_0000_0000_0000, 0x7fff_ffff_ffff_ffff) {
            Some(x) => before.push(x as i64),
            None => before,
        }
    }
}

/// The length that an array text asks for: the text before its first tab,
/// trimmed, read as a `usize`, or 0.
pub open spec fn array_text_len(t: Seq<char>) -> int {
    match int_text(trimmed(t.take(index_of(t, '\t'))), false, 0, usize::MAX as int) {
        Some(n) => n,
        None => 0,
    }
}

/// The numbers that an array text lists after its first tab, comma-separated.
pub open spec fn array_text_numbers(t: Seq<char>) -> Seq<i64> {
    numbers_in(split_on(t.skip(index_of(t, '\t') + 1), ','))
}

/// The elements of an array rebuilt from `vals`, then padded to `n`.
pub open spec fn rebuilt(old: Seq<Value>, mt: FieldType, vals: Seq<i64>, n: int) -> Seq<Value> {
    Seq::new(vals.len(), |i: int| cast_like(elem_base(old, mt, i), vals[i])) + Seq::new(
        if n > vals.len() {
            (n - vals.len()) as nat
        } else {
            0
        },
        |i: int| pad_elem(old),
    )
}

/// An array rebuilt from the text `length<TAB>v1,v2,...`: one element per
/// number that reads, each in the variant of the old element at its place,
/// then padding up to the length. `None` where `v` is no array, the text has
/// no tab, or an empty array of a member type with no zero gets numbers.
pub open spec fn array_from_text(v: Value, t: Seq<char>) -> Option<Value> {
    if index_of(t, '\t') < 0 || !(v is Array) {
        None
    } else {
        let mt = v->Array_0;
        let old = v->Array_1;
        let vals = array_text_numbers(t);
        if old.len() == 0 && vals.len() > 0 && default_elem(mt) is None {
            None
        } else {
            Some(Value::Array(mt, rebuilt(old, mt, vals, array_text_len(t))))
        }
    }
}

/// What an assignment of `kind` with text `t` makes of `v`; `None` where it
/// does not apply, and the value stays.
pub open spec fn assigned(v: Value, kind: Seq<char>, t: Seq<char>, fl: FloatText) -> Option<Value> {
    if kind == seq!['V', 'A', 'L'] {
        scalar_from_text(v, t, fl)
    } else if kind == seq!['A', 'R', 'R', 'A', 'Y'] {
        array_from_text(v, t)
    } else {
        None
    }
}

/// The number `x` in an element of the variant of `base`.
fn cast_elem(base: &FieldValue, x: i64) -> (r: FieldValue)
    ensures
        r@ == cast_like(base@, x),
{
    match base {
        FieldValue::U32(_) => FieldValue::U32(x as u32),
        FieldValue::S32(_) => FieldValue::S32(x as i32),
        FieldValue::U64(_) => FieldValue::U64(x as u64),
        FieldValue::S64(_) => FieldValue::S64(x),
        FieldValue::U16(_) => FieldValue::U16(x as u16),
        FieldValue::S16(_) => FieldValue::S16(x as i16),
        FieldValue::U8(_) => FieldValue::U8(x as u8),
        FieldValue::S8(_) => FieldValue::S8(x as i8),
        FieldValue::Enum(e) => FieldValue::Enum(
            match e {
                EnumValue::E1(_) => EnumValue::E1(x as i8),
                EnumValue::E2(_) => EnumValue::E2(x as i16),
                EnumValue::E4(_) => EnumValue::E4(x as i32),
                EnumValue::E8(_) => EnumValue::E8(x),
            },
        ),
        FieldValue::Boolean(_) => FieldValue::Boolean(x != 0),
        _ => FieldValue::S32(x as i32),
    }
}

/// The zero element of a member type, where it has one.
fn zero_of(mt: FieldType) -> (r: Option<FieldValue>)
    ensures
        match r {
            Some(z) => default_elem(mt) == Some(z@),
            None => default_elem(mt) is None,
        },
{
    match mt {
        FieldType::U8 => Some(FieldValue::U8(0)),
        FieldType::U16 => Some(FieldValue::U16(0)),
        FieldType::U32 => Some(FieldValue::U32(0)),
        FieldType::U64 => Some(FieldValue::U64(0)),
        FieldType::S8 => Some(FieldValue::S8(0)),
        FieldType::S16 => Some(FieldValue::S16(0)),
        FieldType::S32 => Some(FieldValue::S32(0)),
        FieldType::S64 => Some(FieldValue::S64(0)),
        FieldType::Boolean => Some(FieldValue::Boolean(false)),
        FieldType::Enum => Some(FieldValue::Enum(EnumValue::E4(0))),
        FieldType::Other => None,
    }
}

/// The numbers of the pieces that read, trimmed, as `i64`.
fn numbers_of(pieces: &Vec<Vec<char>>) -> (r: Vec<i64>)
    ensures
        r@ == numbers_in(pieces.deep_view()),
{
    let ghost pv = pieces.deep_view();
    let mut out: Vec<i64> = Vec::new();
    let mut i: usize = 0;
    while i < pieces.len()
        invariant
            i <= pieces@.len(),
            pv == pieces.deep_view(),
            out@ == numbers_in(pv.take(i as int)),
        decreases pieces@.len() - i,
    {
        proof {
            assert(pv.take(i + 1).drop_last() =~= pv.take(i as int));
            assert(pieces@[i as int]@ == pv[i as int]);
        }
        let t = trim(pieces[i].as_slice());
        match parse_int(t.as_slice(), true, -0x8000_0000_0000_0000, 0x7fff_ffff_ffff_ffff) {
            Some(x) => out.push(x as i64),
            None => {},
        }
        i += 1;
    }
    proof {
        assert(pv.take(pieces@.len() as int) =~= pv);
    }
    out
}

/// Rebuild an array from the text `length<TAB>v1,v2,...`.
pub fn array_from(v: &mut FieldValue, t: &[char]) -> (ok: bool)
    ensures
        match array_from_text(old(v)@, t@) {
            Some(nv) => ok && final(v)@ == nv,
            None => !ok && final(v)@ == old(v)@,
        },
{
    proof {
        lemma_index_of(t@, '\t');
        assert(t@.skip(0) =~= t@);
    }
    let len = t.len();
    let k = match find_char(t, 0, '\t') {
        Some(k) => k,
        None => return false,
    };
    let head = substr(t, 0, k);
    let tail = substr(t, k + 1, len);
    proof {
        assert(head@ =~= t@.take(k as int));
        assert(tail@ =~= t@.skip(k + 1));
    }
    let head_t = trim(head.as_slice());
    let n: usize = match parse_int(head_t.as_slice(), false, 0, usize::MAX as i128) {
        Some(n) => n as usize,
        None => 0,
    };
    let pieces = split_chars(tail.as_slice(), ',');
    let vals = numbers_of(&pieces);
    match v {
        FieldValue::Array(a) => {
            let ghost mt = a.member_type;
            let ghost oldv = value_view(FieldValue::Array(*a))->Array_1;
            let zero = zero_of(a.member_type);
            if a.values.len() == 0 && vals.len() > 0 && zero.is_none() {
                return false;
            }
            let mut out: Vec<FieldValue> = Vec::new();
            let mut i: usize = 0;
            while i < vals.len()
                invariant
                    i <= vals@.len(),
                    oldv == value_view(FieldValue::Array(*a))->Array_1,
                    mt == a.member_type,
                    a.values@.len() == 0 && vals@.len() > 0 ==> zero is Some,
                    match zero {
                        Some(z) => default_elem(mt) == Some(z@),
                        None => default_elem(mt) is None,
                    },
                    out@.len() == i,
                    forall|j: int| 0 <= j < i ==> value_view(#[trigger] out@[j]) == cast_like(elem_base(oldv, mt, j), vals@[j]),
                decreases vals@.len() - i,
            {
                let x = vals[i];
                let e = if i < a.values.len() {
                    cast_elem(&a.values[i], x)
                } else if a.values.len() > 0 {
                    cast_elem(&a.values[0], x)
                } else {
                    match &zero {
                        Some(z) => cast_elem(z, x),
                        None => FieldValue::U32(0),
                    }
                };
                out.push(e);
                i += 1;
            }
            while out.len() < n
                invariant
                    vals@.len() <= out@.len() <= n || (n < vals@.len() && out@.len() == vals@.len()),
                    oldv == value_view(FieldValue::Array(*a))->Array_1,
                    mt == a.member_type,
                    forall|j: int| 0 <= j < vals@.len() ==> value_view(#[trigger] out@[j]) == cast_like(elem_base(oldv, mt, j), vals@[j]),
                    forall|j: int| vals@.len() <= j < out@.len() ==> value_view(#[trigger] out@[j]) == pad_elem(oldv),
                decreases n - out@.len(),
            {
                let e = if a.values.len() == 0 {
                    FieldValue::U32(0)
                } else {
                    a.values[0].duplicate()
                };
                out.push(e);
            }
            a.values = out;
            proof {
                assert(value_view(*v)->Array_1 =~= rebuilt(oldv, mt, vals@, n as int));
            }
            true
        },
        _ => false,
    }
}

/// Apply an assignment of `kind` with text `t` to a value.
pub fn assign_value(v: &mut FieldValue, kind: &[char], t: &[char], fl: FloatText) -> (ok: bool)
    ensures
        match assigned(old(v)@, kind@, t@, fl) {
            Some(nv) => ok && final(v)@ == nv,
            None => !ok && final(v)@ == old(v)@,
        },
{
    if kind.len() == 3 && kind[0] == 'V' && kind[1] == 'A' && kind[2] == 'L' {
        proof {
            assert(kind@ =~= seq!['V', 'A', 'L']);
        }
        match scalar_from(v, t, fl) {
            Some(nv) => {
                *v = nv;
                true
            },
            None => false,
        }
    } else if kind.len() == 5 && kind[0] == 'A' && kind[1] == 'R' && kind[2] == 'R' && kind[3] == 'A' && kind[4] == 'Y' {
        proof {
            assert(kind@ =~= seq!['A', 'R', 'R', 'A', 'Y']);
        }
        array_from(v, t)
    } else {
        proof {
            if kind@ == seq!['V', 'A', 'L'] {
                assert(kind@[0] == 'V' && kind@[1] == 'A' && kind@[2] == 'L');
            }
            if kind@ == seq!['A', 'R', 'R', 'A', 'Y'] {
                assert(kind@[0] == 'A' && kind@[1] == 'R' && kind@[2] == 'R' && kind@[3] == 'A' && kind@[4] == 'Y');
            }
        }
        false
    }
}

/// The class `c` after an assignment to the path `parts[idx..]` below it:
/// the first field under the step's hash is followed, into an element of
/// it where the step gives an index, and the last step's field takes the
/// assignment. `None` where a step finds nothing, an index has no element,
/// a path ends on an index, or the assignment does not apply.
pub open spec fn walk_class(c: ClassV, parts: Seq<(u32, Option<usize>)>, idx: int, kind: Seq<char>, t: Seq<char>, fl: FloatText) -> Option<ClassV>
    decreases parts.len() - idx, 0int,
{
    if idx < 0 || idx >= parts.len() {
        None
    } else {
        let fi = first_key(c.fields, parts[idx].0);
        if fi < 0 {
            None
        } else {
            let fv = c.fields[fi].1;
            let last = idx == parts.len() - 1;
            let nv = match parts[idx].1 {
                Some(ai) => if last {
                    None
                } else {
                    walk_elem(fv, ai, parts, idx + 1, kind, t, fl)
                },
                None => if last {
                    assigned(fv, kind, t, fl)
                } else {
                    walk_value(fv, parts, idx + 1, kind, t, fl)
                },
            };
            match nv {
                Some(x) => Some(ClassV { hash: c.hash, fields: c.fields.update(fi, (c.fields[fi].0, x)) }),
                None => None,
            }
        }
    }
}

/// The value `v` after an assignment to the path `parts[idx..]` below it: a
/// class is walked by name, an array by the index of the step.
pub open spec fn walk_value(v: Value, parts: Seq<(u32, Option<usize>)>, idx: int, kind: Seq<char>, t: Seq<char>, fl: FloatText) -> Option<Value>
    decreases parts.len() - idx, 1int,
{
    if idx < 0 || idx >= parts.len() {
        None
    } else {
        match v {
            Value::Class(c) => match walk_class(c, parts, idx, kind, t, fl) {
                Some(nc) => Some(Value::Class(nc)),
                None => None,
            },
            Value::Array(_, _) => match parts[idx].1 {
                Some(ai) => walk_elem(v, ai, parts, idx + 1, kind, t, fl),
                None => None,
            },
            _ => None,
        }
    }
}

/// The array `v` after an assignment to the path `parts[idx..]` below its
/// element `ai`.
pub open spec fn walk_elem(v: Value, ai: usize, parts: Seq<(u32, Option<usize>)>, idx: int, kind: Seq<char>, t: Seq<char>, fl: FloatText) -> Option<Value>
    decreases parts.len() - idx, 2int,
{
    if idx < 0 || idx > parts.len() || !(v is Array) || ai >= v->Array_1.len() {
        None
    } else {
        match walk_value(v->Array_1[ai as int], parts, idx, kind, t, fl) {
            Some(e) => Some(Value::Array(v->Array_0, v->Array_1.update(ai as int, e))),
            None => None,
        }
    }
}

/// Walk a class along `parts[idx..]` and apply the assignment at its end.
pub fn walk_class_mut(c: &mut Class, parts: &Vec<PathPart>, idx: usize, kind: &[char], t: &[char], fl: FloatText) -> (ok: bool)
    ensures
        match walk_class(old(c)@, parts.deep_view(), idx as int, kind@, t@, fl) {
            Some(nc) => ok && final(c)@ == nc,
            None => !ok && final(c)@ == old(c)@,
        },
    decreases parts@.len() - idx, 0int,
{
    let ghost pv = parts.deep_view();
    if idx >= parts.len() {
        return false;
    }
    let h = parts[idx].hash;
    let fi = match crate::slot::find_field(c, h) {
        Some(k) => k,
        None => return false,
    };
    proof {
        lemma_first_key(c@.fields, h, fi as int);
        assert(pv[idx as int] == parts@[idx as int].deep_view());
    }
    let ghost before = *c;
    let ghost fv = c@.fields[fi as int].1;
    let last = idx + 1 == parts.len();
    let ok = match parts[idx].index {
        Some(ai) => {
            if last {
                false
            } else {
                walk_elem_mut(&mut c.fields[fi].value, ai, parts, idx + 1, kind, t, fl)
            }
        },
        None => {
            if last {
                assign_value(&mut c.fields[fi].value, kind, t, fl)
            } else {
                walk_value_mut(&mut c.fields[fi].value, parts, idx + 1, kind, t, fl)
            }
        },
    };
    proof {
        assert(c.fields@ =~= before.fields@.update(
            fi as int,
            crate::model::Field { hash: before.fields@[fi as int].hash, value: c.fields@[fi as int].value },
        ));
        lemma_class_set_value(before, *c, fi as int, c.fields@[fi as int].value);
        if !ok {
            assert(c@.fields =~= before@.fields);
        }
    }
    ok
}

/// Walk a value along `parts[idx..]` and apply the assignment at its end.
pub fn walk_value_mut(v: &mut FieldValue, parts: &Vec<PathPart>, idx: usize, kind: &[char], t: &[char], fl: FloatText) -> (ok: bool)
    ensures
        match walk_value(old(v)@, parts.deep_view(), idx as int, kind@, t@, fl) {
            Some(nv) => ok && final(v)@ == nv,
            None => !ok && final(v)@ == old(v)@,
        },
    decreases parts@.len() - idx, 1int,
{
    let ghost pv = parts.deep_view();
    if idx >= parts.len() {
        return false;
    }
    proof {
        assert(pv[idx as int] == parts@[idx as int].deep_view());
    }
    match v {
        FieldValue::Class(b) => {
            let ghost c0 = **b;
            proof {
                lemma_class_value_view(c0);
            }
            let ok = walk_class_mut(b, parts, idx, kind, t, fl);
            proof {
                lemma_class_value_view(**b);
            }
            ok
        },
        FieldValue::Array(_) => {
            match parts[idx].index {
                Some(ai) => walk_elem_mut(v, ai, parts, idx + 1, kind, t, fl),
                None => false,
            }
        },
        _ => false,
    }
}

/// Walk element `ai` of an array along `parts[idx..]`.
pub fn walk_elem_mut(v: &mut FieldValue, ai: usize, parts: &Vec<PathPart>, idx: usize, kind: &[char], t: &[char], fl: FloatText) -> (ok: bool)
    ensures
        match walk_elem(old(v)@, ai, parts.deep_view(), idx as int, kind@, t@, fl) {
            Some(nv) => ok && final(v)@ == nv,
            None => !ok && final(v)@ == old(v)@,
        },
    decreases parts@.len() - idx, 2int,
{
    if idx > parts.len() {
        return false;
    }
    match v {
        FieldValue::Array(a) => {
            if ai >= a.values.len() {
                return false;
            }
            let ghost mt = a.member_type;
            let ghost before = a.values;
            let ok = walk_value_mut(&mut a.values[ai], parts, idx, kind, t, fl);
            proof {
                lemma_array_set(mt, before, a.values, ai as int, a.values@[ai as int]);
                let ov = value_view(crate::model::FieldValue::Array(crate::model::Array { member_type: mt, values: before }))->Array_1;
                if !ok {
                    assert(ov.update(ai as int, ov[ai as int]) =~= ov);
                }
            }
            ok
        },
        _ => false,
    }
}

/// Apply one assignment to the top-level class at `top`.
pub fn apply_ref_line(tree: &mut SaveTree, top: usize, path: &[char], kind: &[char], t: &[char], fl: FloatText) -> (ok: bool)
    requires
        top < old(tree).fields@.len(),
    ensures
        match walk_class(old(tree)@[top as int].1, path_parts(path@), 0, kind@, t@, fl) {
            Some(nc) => ok && final(tree)@ == old(tree)@.update(top as int, (old(tree)@[top as int].0, nc)),
            None => !ok && final(tree)@ == old(tree)@,
        },
{
    let parts = parse_path(path);
    let ghost before = *tree;
    let ok = walk_class_mut(&mut tree.fields[top].1, &parts, 0, kind, t, fl);
    proof {
        lemma_tree_set_class(before, *tree, top as int, tree.fields@[top as int].1);
        if !ok {
            assert(tree@ =~= before@);
        }
    }
    ok
}

/// How many assignments took effect, and how many did not.
#[derive(Clone, Copy, Debug, PartialEq, Eq)]
pub struct ApplyCount {
    pub set: usize,
    pub failed: usize,
}

/// Why a listing could not be applied.
#[derive(Clone, Copy, Debug, PartialEq, Eq)]
pub enum ApplyError {
    /// No top-level class is stored under the hash.
    TopNotFound,
}

/// The class `c` after the assignments in order, each with the float reading
/// of its text, and the numbers of those that took effect and that did not.
pub open spec fn applied(c: ClassV, asg: Seq<((Seq<char>, Seq<char>, Seq<char>), FloatText)>) -> (ClassV, nat, nat)
    decreases asg.len(),
{
    if asg.len() == 0 {
        (c, 0, 0)
    } else {
        let prev = applied(c, asg.drop_last());
        let (a, fl) = asg.last();
        match walk_class(prev.0, path_parts(a.0), 0, a.1, a.2, fl) {
            Some(nc) => (nc, prev.1 + 1, prev.2),
            None => (prev.0, prev.1, prev.2 + 1),
        }
    }
}

/// Apply the assignments, in order, to the first top-level class stored
/// under `top_hash`; each comes with its text read as floating-point numbers.
pub fn apply_listing(tree: &mut SaveTree, top_hash: u32, entries: &Vec<(Assignment, FloatText)>) -> (r: Result<ApplyCount, ApplyError>)
    ensures
        ({
            let k = first_key(old(tree)@, top_hash);
            match r {
                Ok(cnt) => {
                    let res = applied(old(tree)@[k].1, entries.deep_view());
                    &&& k >= 0
                    &&& final(tree)@ == old(tree)@.update(k, (top_hash, res.0))
                    &&& cnt.set == res.1
                    &&& cnt.failed == res.2
                },
                Err(e) => k == -1 && e == ApplyError::TopNotFound && final(tree)@ == old(tree)@,
            }
        }),
{
    let ghost t0 = tree@;
    let ghost ev = entries.deep_view();
    let top = match crate::model::find_top(&tree.fields, top_hash) {
        Some(k) => k,
        None => return Err(ApplyError::TopNotFound),
    };
    proof {
        lemma_first_key(t0, top_hash, top as int);
        assert(t0[top as int].0 == top_hash);
    }
    let mut set: usize = 0;
    let mut failed: usize = 0;
    let mut i: usize = 0;
    while i < entries.len()
        invariant
            i <= entries@.len(),
            ev == entries.deep_view(),
            top < t0.len(),
            t0[top as int].0 == top_hash,
            tree.fields@.len() == t0.len(),
            ({
                let res = applied(t0[top as int].1, ev.take(i as int));
                &&& tree@ == t0.update(top as int, (top_hash, res.0))
                &&& set == res.1
                &&& failed == res.2
            }),
            set + failed == i,
        decreases entries@.len() - i,
    {
        let ghost prev = applied(t0[top as int].1, ev.take(i as int));
        proof {
            assert(ev.take(i + 1).drop_last() =~= ev.take(i as int));
            assert(ev.take(i + 1).last() == ev[i as int]);
            assert(entries@[i as int].deep_view() == ev[i as int]);
            assert(tree@[top as int].1 == prev.0);
        }
        let (e, fl) = &entries[i];
        let ok = apply_ref_line(tree, top, e.path.as_slice(), e.kind.as_slice(), e.rest.as_slice(), *fl);
        if ok {
            set += 1;
        } else {
            failed += 1;
        }
        proof {
            assert(tree@ =~= t0.update(top as int, (top_hash, applied(t0[top as int].1, ev.take(i + 1)).0)));
        }
        i += 1;
    }
    proof {
        assert(ev.take(entries@.len() as int) =~= ev);
    }
    Ok(ApplyCount { set, failed })
}

} // verus!

//! The text form of an array of numbers that the field listings carry: the
//! array's length in decimal, a tab, and its elements in decimal, separated by
//! commas (`1`/`0` for a boolean, the widened value for an enum, `-` for an
//! element that holds no number).

use vstd::prelude::*;
use crate::model::{FieldValue, FieldType, EnumValue, Value, same_variant};
use crate::assign::{array_from_text, array_text_len, array_text_numbers, numbers_in, rebuilt, cast_like, elem_base};
use crate::extract::enum_i64;
use crate::strparse::{is_digit, all_digits, digits_value, parse_integer, is_ws, trimmed, trimmed_end, trimmed_start,
    index_of, lemma_index_of, split_on};

verus! {

/// The decimal digit for `d` (below ten).
pub open spec fn digit_char(d: nat) -> char {
    if d == 0 {
        '0'
    } else if d == 1 {
        '1'
    } else if d == 2 {
        '2'
    } else if d == 3 {
        '3'
    } else if d == 4 {
        '4'
    } else if d == 5 {
        '5'
    } else if d == 6 {
        '6'
    } else if d == 7 {
        '7'
    } else if d == 8 {
        '8'
    } else {
        '9'
    }
}

/// The decimal digits of `n`, without leading zeros.
pub open spec fn digits_of(n: nat) -> Seq<char>
    decreases n,
{
    if n < 10 {
        seq![digit_char(n)]
    } else {
        digits_of(n / 10).push(digit_char(n % 10))
    }
}

/// The decimal text of `x`, with a leading `-` when it is negative.
pub open spec fn decimal(x: int) -> Seq<char> {
    if x < 0 {
        seq!['-'] + digits_of((-x) as nat)
    } else {
        digits_of(x as nat)
    }
}

fn digit_exec(d: u128) -> (c: char)
    requires
        d < 10,
    ensures
        c == digit_char(d as nat),
{
    if d == 0 {
        '0'
    } else if d == 1 {
        '1'
    } else if d == 2 {
        '2'
    } else if d == 3 {
        '3'
    } else if d == 4 {
        '4'
    } else if d == 5 {
        '5'
    } else if d == 6 {
        '6'
    } else if d == 7 {
        '7'
    } else if d == 8 {
        '8'
    } else {
        '9'
    }
}

fn push_digits(n: u128, out: &mut Vec<char>)
    ensures
        final(out)@ == old(out)@ + digits_of(n as nat),
    decreases n,
{
    if n < 10 {
        out.push(digit_exec(n));
        assert(out@ =~= old(out)@ + digits_of(n as nat));
    } else {
        push_digits(n / 10, out);
        let ghost mid = out@;
        out.push(digit_exec(n % 10));
        assert(out@ =~= old(out)@ + digits_of(n as nat));
    }
}

/// The decimal text of `x`.
pub fn decimal_text(x: i128) -> (r: Vec<char>)
    ensures
        r@ == decimal(x as int),
{
    let mut out: Vec<char> = Vec::new();
    if x < 0 {
        out.push('-');
        let m: u128 = if x == i128::MIN {
            0x8000_0000_0000_0000_0000_0000_0000_0000u128
        } else {
            (-x) as u128
        };
        push_digits(m, &mut out);
        assert(out@ =~= decimal(x as int));
    } else {
        push_digits(x as u128, &mut out);
        assert(out@ =~= decimal(x as int));
    }
    out
}

/// The text of one element of a listed array.
pub open spec fn elem_text(v: Value) -> Seq<char> {
    match v {
        Value::U8(x) => decimal(x as int),
        Value::U16(x) => decimal(x as int),
        Value::U32(x) => decimal(x as int),
        Value::U64(x) => decimal(x as int),
        Value::S8(x) => decimal(x as int),
        Value::S16(x) => decimal(x as int),
        Value::S32(x) => decimal(x as int),
        Value::S64(x) => decimal(x as int),
        Value::Boolean(b) => if b {
            seq!['1']
        } else {
            seq!['0']
        },
        Value::Enum(e) => decimal(enum_i64(e) as int),
        _ => seq!['-'],
    }
}

/// The items of `ts` with `c` between consecutive ones.
pub open spec fn joined(ts: Seq<Seq<char>>, c: char) -> Seq<char>
    decreases ts.len(),
{
    if ts.len() == 0 {
        Seq::empty()
    } else if ts.len() == 1 {
        ts[0]
    } else {
        joined(ts.drop_last(), c).push(c) + ts.last()
    }
}

/// The listed form of an array's elements: the length, a tab, and the
/// elements' texts separated by commas.
pub open spec fn array_text(s: Seq<Value>) -> Seq<char> {
    decimal(s.len() as int) + seq!['\t'] + joined(s.map_values(|v: Value| elem_text(v)), ',')
}

fn elem_text_exec(v: &FieldValue) -> (r: Vec<char>)
    ensures
        r@ == elem_text(v@),
{
    match v {
        FieldValue::U8(x) => decimal_text(*x as i128),
        FieldValue::U16(x) => decimal_text(*x as i128),
        FieldValue::U32(x) => decimal_text(*x as i128),
        FieldValue::U64(x) => decimal_text(*x as i128),
        FieldValue::S8(x) => decimal_text(*x as i128),
        FieldValue::S16(x) => decimal_text(*x as i128),
        FieldValue::S32(x) => decimal_text(*x as i128),
        FieldValue::S64(x) => decimal_text(*x as i128),
        FieldValue::Boolean(b) => {
            let r = if *b {
                vec!['1']
            } else {
                vec!['0']
            };
            assert(r@ =~= elem_text(v@));
            r
        },
        FieldValue::Enum(e) => decimal_text(crate::extract::enum_as_i64(*e) as i128),
        _ => {
            let r = vec!['-'];
            assert(r@ =~= elem_text(v@));
            r
        },
    }
}

/// The listed form of an array value, or `None` for a value that is not an
/// array or holds a class (such an array is listed element by element).
pub fn listing_text(v: &FieldValue) -> (r: Option<Vec<char>>)
    ensures
        match r {
            Some(t) => v@ is Array && (forall|i: int| 0 <= i < v@->Array_1.len() ==> !(#[trigger] v@->Array_1[i] is Class))
                && t@ == array_text(v@->Array_1),
            None => !(v@ is Array) || exists|i: int| 0 <= i < v@->Array_1.len() && #[trigger] v@->Array_1[i] is Class,
        },
{
    match v {
        FieldValue::Array(a) => {
            let ghost s = v@->Array_1;
            let mut i: usize = 0;
            while i < a.values.len()
                invariant
                    i <= a.values@.len(),
                    s == FieldValue::Array(*a)@->Array_1,
                    s == v@->Array_1,
                    v@ is Array,
                    forall|j: int| 0 <= j < i ==> !(#[trigger] s[j] is Class),
                decreases a.values@.len() - i,
            {
                assert(s[i as int] == a.values@[i as int]@);
                match &a.values[i] {
                    FieldValue::Class(_) => {
                        assert(s[i as int] is Class);
                        return None;
                    },
                    _ => {},
                }
                i += 1;
            }
            let mut out = decimal_text(a.values.len() as i128);
            out.push('\t');
            let ghost head = out@;
            let ghost texts = s.map_values(|x: Value| elem_text(x));
            let mut k: usize = 0;
            while k < a.values.len()
                invariant
                    k <= a.values@.len(),
                    s == FieldValue::Array(*a)@->Array_1,
                    s == v@->Array_1,
                    v@ is Array,
                    texts == s.map_values(|x: Value| elem_text(x)),
                    head == decimal(s.len() as int) + seq!['\t'],
                    out@ == head + joined(texts.take(k as int), ','),
                decreases a.values@.len() - k,
            {
                assert(s[k as int] == a.values@[k as int]@);
                let piece = elem_text_exec(&a.values[k]);
                let ghost before = out@;
                if k > 0 {
                    out.push(',');
                }
                let mut q: usize = 0;
                let ghost mid = out@;
                while q < piece.len()
                    invariant
                        q <= piece@.len(),
                        out@ == mid + piece@.take(q as int),
                    decreases piece@.len() - q,
                {
                    out.push(piece[q]);
                    assert(piece@.take(q + 1) =~= piece@.take(q as int).push(piece@[q as int]));
                    q += 1;
                }
                proof {
                    assert(piece@.take(piece@.len() as int) =~= piece@);
                    assert(texts[k as int] == piece@);
                    let tk = texts.take(k + 1);
                    assert(tk.drop_last() =~= texts.take(k as int));
                    if k == 0 {
                        assert(joined(tk, ',') == tk[0]);
                        assert(joined(texts.take(0), ',') =~= Seq::<char>::empty());
                        assert(out@ =~= head + joined(tk, ','));
                    } else {
                        assert(out@ =~= head + joined(tk, ','));
                    }
                }
                k += 1;
            }
            proof {
                assert(texts.take(s.len() as int) =~= texts);
            }
            Some(out)
        },
        _ => None,
    }
}

proof fn lemma_digit_char(d: nat)
    requires
        d < 10,
    ensures
        is_digit(digit_char(d)),
        (digit_char(d) as u32) - ('0' as u32) == d,
        !is_ws(digit_char(d)),
        digit_char(d) != ',',
        digit_char(d) != '\t',
        digit_char(d) != '-',
        digit_char(d) != '+',
{
}

proof fn lemma_digits_of(n: nat)
    ensures
        all_digits(digits_of(n)),
        digits_value(digits_of(n)) == n,
        forall|i: int| 0 <= i < digits_of(n).len() ==> {
            &&& !is_ws(#[trigger] digits_of(n)[i])
            &&& digits_of(n)[i] != ','
            &&& digits_of(n)[i] != '\t'
            &&& digits_of(n)[i] != '-'
            &&& digits_of(n)[i] != '+'
        },
    decreases n,
{
    if n < 10 {
        lemma_digit_char(n);
        assert(digits_of(n).drop_last() =~= Seq::<char>::empty());
        assert(digits_value(Seq::<char>::empty()) == 0);
        assert(digits_value(digits_of(n)) == digits_value(digits_of(n).drop_last()) * 10 + ((digits_of(n).last() as u32) - ('0' as u32)) as nat);
    } else {
        lemma_digits_of(n / 10);
        lemma_digit_char(n % 10);
        let s = digits_of(n);
        assert(s.drop_last() =~= digits_of(n / 10));
        assert(digits_value(s) == (n / 10) * 10 + n % 10);
        assert((n / 10) * 10 + n % 10 == n) by (nonlinear_arith);
        assert forall|i: int| 0 <= i < s.len() implies #[trigger] is_digit(s[i]) by {
            if i < s.len() - 1 {
                assert(s[i] == digits_of(n / 10)[i]);
            }
        }
        assert forall|i: int| 0 <= i < s.len() implies {
            &&& !is_ws(#[trigger] s[i])
            &&& s[i] != ','
            &&& s[i] != '\t'
            &&& s[i] != '-'
            &&& s[i] != '+'
        } by {
            if i < s.len() - 1 {
                assert(s[i] == digits_of(n / 10)[i]);
            }
        }
    }
}

/// The decimal text of `x` reads back as `x`, trimmed or not, in any range
/// that holds it (signed where it is negative); it holds no comma and no tab.
pub proof fn lemma_decimal_reads_back(x: int, signed: bool, lo: int, hi: int)
    requires
        lo <= x <= hi,
        x < 0 ==> signed,
    ensures
        trimmed(decimal(x)) == decimal(x),
        crate::strparse::parse_in_range(trimmed(decimal(x)), signed, lo, hi) == Some(x),
        forall|i: int| 0 <= i < decimal(x).len() ==> #[trigger] decimal(x)[i] != ',' && decimal(x)[i] != '\t',
        decimal(x).len() > 0,
{
    let s = decimal(x);
    if x < 0 {
        let m = (-x) as nat;
        lemma_digits_of(m);
        assert(s.drop_first() =~= digits_of(m));
        assert(s.last() == digits_of(m).last());
        assert(!is_ws(s[0]));
        assert(!is_ws(s.last()));
        assert forall|i: int| 0 <= i < s.len() implies #[trigger] s[i] != ',' && s[i] != '\t' by {
            if i > 0 {
                assert(s[i] == digits_of(m)[i - 1]);
            }
        }
    } else {
        lemma_digits_of(x as nat);
        assert(!is_ws(s[0]));
        assert(!is_ws(s.last()));
    }
    assert(trimmed_start(s) == s);
    assert(trimmed_end(s) == s);
}

proof fn lemma_joined_front(ts: Seq<Seq<char>>, c: char)
    requires
        ts.len() >= 2,
    ensures
        joined(ts, c) == ts[0] + seq![c] + joined(ts.drop_first(), c),
    decreases ts.len(),
{
    if ts.len() == 2 {
        assert(ts.drop_last().len() == 1);
        assert(ts.drop_first().len() == 1);
        assert(joined(ts.drop_last(), c) == ts[0]);
        assert(joined(ts.drop_first(), c) == ts[1]);
        assert(joined(ts, c) =~= ts[0] + seq![c] + joined(ts.drop_first(), c));
    } else {
        let init = ts.drop_last();
        lemma_joined_front(init, c);
        assert(init.drop_first() =~= ts.drop_first().drop_last());
        assert(ts.drop_first().last() == ts.last());
        assert(joined(ts, c) =~= ts[0] + seq![c] + joined(ts.drop_first(), c));
    }
}

/// A text without `c` splits into itself alone.
proof fn lemma_split_plain(x: Seq<char>, c: char)
    requires
        forall|j: int| 0 <= j < x.len() ==> #[trigger] x[j] != c,
    ensures
        split_on(x, c) == seq![x],
{
    lemma_index_of(x, c);
    if index_of(x, c) >= 0 {
        assert(x[index_of(x, c)] == c);
    }
}

/// A text without `c`, then `c`, then more, splits into that text and the
/// pieces of the rest.
proof fn lemma_split_after(x: Seq<char>, y: Seq<char>, c: char)
    requires
        forall|j: int| 0 <= j < x.len() ==> #[trigger] x[j] != c,
    ensures
        split_on(x + seq![c] + y, c) == seq![x] + split_on(y, c),
{
    let w = x + seq![c] + y;
    lemma_index_of(w, c);
    let k = index_of(w, c);
    assert(w[x.len() as int] == c);
    if k < 0 || k > x.len() {
        assert(w[x.len() as int] != c);
    } else if k < x.len() {
        assert(w[k] == x[k]);
    }
    assert(k == x.len());
    assert(w.take(k) =~= x);
    assert(w.skip(k + 1) =~= y);
}

/// Texts without `c`, joined with `c`, split back into themselves.
proof fn lemma_split_joined(ts: Seq<Seq<char>>, c: char)
    requires
        ts.len() >= 1,
        forall|i: int, j: int| 0 <= i < ts.len() && 0 <= j < ts[i].len() ==> #[trigger] ts[i][j] != c,
    ensures
        split_on(joined(ts, c), c) == ts,
    decreases ts.len(),
{
    if ts.len() == 1 {
        assert forall|j: int| 0 <= j < ts[0].len() implies #[trigger] ts[0][j] != c by {
            assert(ts[0][j] != c);
        }
        lemma_split_plain(ts[0], c);
        assert(seq![ts[0]] =~= ts);
    } else {
        lemma_joined_front(ts, c);
        let rest = ts.drop_first();
        assert forall|i: int, j: int| 0 <= i < rest.len() && 0 <= j < rest[i].len() implies #[trigger] rest[i][j] != c by {
            assert(rest[i] == ts[i + 1]);
        }
        lemma_split_joined(rest, c);
        assert forall|j: int| 0 <= j < ts[0].len() implies #[trigger] ts[0][j] != c by {
            assert(ts[0][j] != c);
        }
        lemma_split_after(ts[0], joined(rest, c), c);
        assert(seq![ts[0]] + rest =~= ts);
    }
}

/// An element whose listed text reads back as an `i64`: an integer that
/// fits, a boolean or an enum.
pub open spec fn listable(v: Value) -> bool {
    match v {
        Value::U8(_) | Value::U16(_) | Value::U32(_) | Value::S8(_) | Value::S16(_) | Value::S32(_) | Value::S64(_)
        | Value::Boolean(_) | Value::Enum(_) => true,
        Value::U64(x) => x <= 0x7fff_ffff_ffff_ffff,
        _ => false,
    }
}

/// The number a listable element lists.
pub open spec fn listed_number(v: Value) -> int {
    match v {
        Value::U8(x) => x as int,
        Value::U16(x) => x as int,
        Value::U32(x) => x as int,
        Value::U64(x) => x as int,
        Value::S8(x) => x as int,
        Value::S16(x) => x as int,
        Value::S32(x) => x as int,
        Value::S64(x) => x as int,
        Value::Boolean(b) => if b {
            1
        } else {
            0
        },
        Value::Enum(e) => enum_i64(e) as int,
        _ => 0,
    }
}

/// Two elements of the same variant and, for enums, of the same width.
pub open spec fn same_slot(x: Value, y: Value) -> bool {
    &&& same_variant(x, y)
    &&& match (x, y) {
        (Value::Enum(a), Value::Enum(b)) => match (a, b) {
            (EnumValue::E1(_), EnumValue::E1(_)) => true,
            (EnumValue::E2(_), EnumValue::E2(_)) => true,
            (EnumValue::E4(_), EnumValue::E4(_)) => true,
            (EnumValue::E8(_), EnumValue::E8(_)) => true,
            _ => false,
        },
        _ => true,
    }
}

proof fn lemma_elem_reads_back(v: Value)
    requires
        listable(v),
    ensures
        elem_text(v) == decimal(listed_number(v)),
        -0x8000_0000_0000_0000 <= listed_number(v) <= 0x7fff_ffff_ffff_ffff,
{
    match v {
        Value::Boolean(b) => {
            if b {
                assert(digits_of(1) =~= seq!['1']);
            } else {
                assert(digits_of(0) =~= seq!['0']);
            }
        },
        _ => {},
    }
}

proof fn lemma_numbers_listed(a: Seq<Value>)
    requires
        forall|i: int| 0 <= i < a.len() ==> listable(#[trigger] a[i]),
    ensures
        numbers_in(a.map_values(|v: Value| elem_text(v))) == a.map_values(|v: Value| listed_number(v) as i64),
        forall|i: int, j: int|
            0 <= i < a.len() && 0 <= j < elem_text(a[i]).len() ==> #[trigger] elem_text(a[i])[j] != ',',
    decreases a.len(),
{
    if a.len() > 0 {
        let init = a.drop_last();
        assert forall|i: int| 0 <= i < init.len() implies listable(#[trigger] init[i]) by {
            assert(init[i] == a[i]);
        }
        lemma_numbers_listed(init);
        let v = a.last();
        lemma_elem_reads_back(v);
        lemma_decimal_reads_back(listed_number(v), true, -0x8000_0000_0000_0000, 0x7fff_ffff_ffff_ffff);
        let pieces = a.map_values(|x: Value| elem_text(x));
        assert(pieces.drop_last() =~= init.map_values(|x: Value| elem_text(x)));
        assert(pieces.last() == elem_text(v));
        assert(numbers_in(pieces) =~= a.map_values(|x: Value| listed_number(x) as i64));
        assert forall|i: int, j: int|
            0 <= i < a.len() && 0 <= j < elem_text(a[i]).len() implies #[trigger] elem_text(a[i])[j] != ',' by {
            if i < a.len() - 1 {
                assert(a[i] == init[i]);
            }
        }
    }
}

proof fn lemma_cast_back(t: Value, v: Value)
    requires
        same_slot(t, v),
        listable(v),
    ensures
        cast_like(t, listed_number(v) as i64) == v,
{
    lemma_elem_reads_back(v);
}

/// Listing round trip: the listed form of an array, applied as an `ARRAY`
/// assignment to an array of the same length whose elements have the same
/// variants (and enum widths), gives back the listed array's elements; the
/// target keeps its member type. The elements must list as `i64` numbers.
pub proof fn law_listing_round_trip(mt: FieldType, t: Seq<Value>, a: Seq<Value>)
    requires
        t.len() == a.len(),
        a.len() <= usize::MAX,
        forall|i: int| 0 <= i < a.len() ==> same_slot(#[trigger] t[i], a[i]) && listable(a[i]),
    ensures
        array_from_text(Value::Array(mt, t), array_text(a)) == Some(Value::Array(mt, a)),
{
    let texts = a.map_values(|v: Value| elem_text(v));
    let d = decimal(a.len() as int);
    let j = joined(texts, ',');
    let text = array_text(a);
    assert(text == d + seq!['\t'] + j);
    assert forall|i: int| 0 <= i < a.len() implies listable(#[trigger] a[i]) by {
        assert(same_slot(t[i], a[i]) && listable(a[i]));
    }
    lemma_decimal_reads_back(a.len() as int, false, 0, usize::MAX as int);
    // the first tab ends the length
    lemma_index_of(text, '\t');
    let k = index_of(text, '\t');
    assert(text[d.len() as int] == '\t');
    if k < 0 || k > d.len() {
        assert(text[d.len() as int] != '\t');
    } else if k < d.len() {
        assert(text[k] == d[k]);
    }
    assert(k == d.len());
    assert(text.take(k) =~= d);
    assert(text.skip(k + 1) =~= j);
    assert(array_text_len(text) == a.len());
    // the numbers read back
    lemma_numbers_listed(a);
    let vals = a.map_values(|v: Value| listed_number(v) as i64);
    if a.len() == 0 {
        assert(texts.len() == 0);
        assert(j =~= Seq::<char>::empty());
        lemma_split_plain(j, ',');
        let one = seq![Seq::<char>::empty()];
        assert(one.drop_last() =~= Seq::<Seq<char>>::empty());
        assert(trimmed_start(Seq::<char>::empty()) =~= Seq::<char>::empty());
        assert(trimmed_end(Seq::<char>::empty()) =~= Seq::<char>::empty());
        assert(trimmed(Seq::<char>::empty()) =~= Seq::<char>::empty());
        assert(!all_digits(Seq::<char>::empty()));
        assert(crate::strparse::parse_in_range(
            trimmed(Seq::<char>::empty()), true, -0x8000_0000_0000_0000, 0x7fff_ffff_ffff_ffff) is None);
        assert(one.last() == Seq::<char>::empty());
        assert(numbers_in(Seq::<Seq<char>>::empty()) == Seq::<i64>::empty());
        assert(numbers_in(one) =~= Seq::<i64>::empty());
        assert(array_text_numbers(text) =~= vals);
    } else {
        assert forall|p: int, q: int| 0 <= p < texts.len() && 0 <= q < texts[p].len() implies #[trigger] texts[p][q] != ',' by {
            assert(texts[p] == elem_text(a[p]));
        }
        lemma_split_joined(texts, ',');
        assert(array_text_numbers(text) == vals);
    }
    let r = rebuilt(t, mt, vals, a.len() as int);
    assert forall|i: int| 0 <= i < a.len() implies #[trigger] r[i] == a[i] by {
        assert(elem_base(t, mt, i) == t[i]);
        lemma_cast_back(t[i], a[i]);
    }
    assert(r =~= a);
}

} // verus!

//! Text handling for the reference files that drive offline edits: splitting,
//! Unicode whitespace trimming, and Rust's decimal integer syntax.

use vstd::prelude::*;

verus! {

/// The characters of `s`.
pub fn chars_of(s: &str) -> (r: Vec<char>)
    ensures
        r@ == s@,
{
    broadcast use vstd::string::axiom_spec_iter;

    let mut out: Vec<char> = Vec::new();
    let ghost mut n: int = 0;
    for c in it: s.chars()
        invariant
            it.seq() == s@,
            n == it.index(),
            out@ == s@.take(n),
    {
        proof {
            assert(s@.take(n + 1) =~= s@.take(n).push(c));
        }
        out.push(c);
        proof {
            n = n + 1;
        }
    }
    proof {
        assert(s@.take(n) =~= s@);
    }
    out
}

/// A character with the Unicode `White_Space` property.
pub open spec fn is_ws(c: char) -> bool {
    let v = c as u32;
    (0x09 <= v <= 0x0d) || v == 0x20 || v == 0x85 || v == 0xa0 || v == 0x1680 || (0x2000 <= v <= 0x200a) || v == 0x2028
        || v == 0x2029 || v == 0x202f || v == 0x205f || v == 0x3000
}

pub fn is_whitespace(c: char) -> (r: bool)
    ensures
        r == is_ws(c),
{
    let v = c as u32;
    (0x09 <= v && v <= 0x0d) || v == 0x20 || v == 0x85 || v == 0xa0 || v == 0x1680 || (0x2000 <= v && v <= 0x200a)
        || v == 0x2028 || v == 0x2029 || v == 0x202f || v == 0x205f || v == 0x3000
}

/// `s` without trailing whitespace.
pub open spec fn trimmed_end(s: Seq<char>) -> Seq<char>
    decreases s.len(),
{
    if s.len() > 0 && is_ws(s.last()) {
        trimmed_end(s.drop_last())
    } else {
        s
    }
}

/// `s` without leading whitespace.
pub open spec fn trimmed_start(s: Seq<char>) -> Seq<char>
    decreases s.len(),
{
    if s.len() > 0 && is_ws(s[0]) {
        trimmed_start(s.drop_first())
    } else {
        s
    }
}

/// `s` without leading or trailing whitespace.
pub open spec fn trimmed(s: Seq<char>) -> Seq<char> {
    trimmed_end(trimmed_start(s))
}

/// A copy of `s[from..to]`.
pub fn substr(s: &[char], from: usize, to: usize) -> (r: Vec<char>)
    requires
        from <= to <= s@.len(),
    ensures
        r@ == s@.subrange(from as int, to as int),
{
    let mut out: Vec<char> = Vec::new();
    let mut i = from;
    while i < to
        invariant
            from <= i <= to,
            to <= s@.len(),
            out@ == s@.subrange(from as int, i as int),
        decreases to - i,
    {
        out.push(s[i]);
        proof {
            assert(s@.subrange(from as int, i + 1) =~= s@.subrange(from as int, i as int).push(s@[i as int]));
        }
        i += 1;
    }
    out
}

/// `s` without trailing whitespace.
pub fn trim_end(s: &[char]) -> (r: Vec<char>)
    ensures
        r@ == trimmed_end(s@),
{
    let mut e = s.len();
    proof {
        assert(s@.take(e as int) =~= s@);
    }
    while e > 0 && is_whitespace(s[e - 1])
        invariant
            e <= s@.len(),
            trimmed_end(s@) == trimmed_end(s@.take(e as int)),
        decreases e,
    {
        proof {
            assert(s@.take(e as int).drop_last() =~= s@.take(e - 1));
        }
        e -= 1;
    }
    proof {
        assert(s@.take(s@.len() as int) =~= s@);
    }
    substr(s, 0, e)
}

/// `s` without leading or trailing whitespace.
pub fn trim(s: &[char]) -> (r: Vec<char>)
    ensures
        r@ == trimmed(s@),
{
    let mut b: usize = 0;
    proof {
        assert(s@.skip(0) =~= s@);
    }
    while b < s.len() && is_whitespace(s[b])
        invariant
            b <= s@.len(),
            trimmed_start(s@) == trimmed_start(s@.skip(b as int)),
        decreases s@.len() - b,
    {
        proof {
            assert(s@.skip(b as int).drop_first() =~= s@.skip(b + 1));
        }
        b += 1;
    }
    let start = substr(s, b, s.len());
    proof {
        assert(s@.skip(0) =~= s@);
        assert(start@ =~= s@.skip(b as int));
    }
    trim_end(start.as_slice())
}

/// The index of the first `c` in `s`, or -1.
pub open spec fn index_of(s: Seq<char>, c: char) -> int
    decreases s.len(),
{
    if s.len() == 0 {
        -1
    } else if s[0] == c {
        0
    } else if index_of(s.drop_first(), c) >= 0 {
        index_of(s.drop_first(), c) + 1
    } else {
        -1
    }
}

pub proof fn lemma_index_of(s: Seq<char>, c: char)
    ensures
        -1 <= index_of(s, c) < s.len(),
        index_of(s, c) >= 0 ==> s[index_of(s, c)] == c,
        forall|j: int| 0 <= j < s.len() && (index_of(s, c) < 0 || j < index_of(s, c)) ==> s[j] != c,
    decreases s.len(),
{
    if s.len() > 0 {
        lemma_index_of(s.drop_first(), c);
        assert forall|j: int| 0 <= j < s.len() && (index_of(s, c) < 0 || j < index_of(s, c)) implies s[j] != c by {
            if j > 0 {
                assert(s[j] == s.drop_first()[j - 1]);
            }
        }
    }
}

/// The index of the first `c` in `s[from..]` (relative to `s`), if any.
pub fn find_char(s: &[char], from: usize, c: char) -> (r: Option<usize>)
    requires
        from <= s@.len(),
    ensures
        match r {
            Some(k) => from <= k < s@.len() && k - from == index_of(s@.skip(from as int), c),
            None => index_of(s@.skip(from as int), c) == -1,
        },
{
    proof {
        lemma_index_of(s@.skip(from as int), c);
    }
    let mut i = from;
    while i < s.len()
        invariant
            from <= i <= s@.len(),
            forall|j: int| from <= j < i ==> s@[j] != c,
        decreases s@.len() - i,
    {
        if s[i] == c {
            proof {
                let t = s@.skip(from as int);
                lemma_index_of(t, c);
                let k = index_of(t, c);
                if k < 0 || k > i - from {
                    assert(t[i - from] == c);
                } else if k < i - from {
                    assert(t[k] == s@[from + k]);
                }
            }
            return Some(i);
        }
        i += 1;
    }
    proof {
        let t = s@.skip(from as int);
        if index_of(t, c) >= 0 {
            assert(t[index_of(t, c)] == s@[from + index_of(t, c)]);
        }
    }
    None
}

/// The pieces of `s` between the occurrences of `c` (Rust's `split`).
pub open spec fn split_on(s: Seq<char>, c: char) -> Seq<Seq<char>>
    decreases s.len(),
{
    let k = index_of(s, c);
    if k < 0 {
        seq![s]
    } else {
        proof {
            lemma_index_of(s, c);
        }
        seq![s.take(k)] + split_on(s.skip(k + 1), c)
    }
}

/// The pieces of `s[from..]` between the occurrences of `c`.
pub fn split_chars(s: &[char], c: char) -> (r: Vec<Vec<char>>)
    ensures
        r.deep_view() == split_on(s@, c),
{
    let mut out: Vec<Vec<char>> = Vec::new();
    let mut from: usize = 0;
    let n = s.len();
    proof {
        assert(s@.skip(0) =~= s@);
    }
    loop
        invariant
            n == s@.len(),
            from <= s@.len(),
            out.deep_view() + split_on(s@.skip(from as int), c) == split_on(s@, c),
        decreases s@.len() - from,
    {
        let ghost rest = s@.skip(from as int);
        proof {
            lemma_index_of(rest, c);
        }
        match find_char(s, from, c) {
            Some(k) => {
                let piece = substr(s, from, k);
                let ghost before = out.deep_view();
                proof {
                    assert(piece@ =~= rest.take(k - from));
                    assert(piece.deep_view() =~= piece@);
                    assert(rest.skip(k - from + 1) =~= s@.skip(k + 1));
                    assert(split_on(rest, c) == seq![rest.take(k - from)] + split_on(rest.skip(k - from + 1), c));
                }
                out.push(piece);
                proof {
                    assert(out.deep_view() =~= before.push(piece.deep_view()));
                    assert(out.deep_view() + split_on(s@.skip(k + 1), c) =~= before + split_on(rest, c));
                }
                from = k + 1;
            },
            None => {
                let piece = substr(s, from, s.len());
                let ghost before = out.deep_view();
                proof {
                    assert(piece@ =~= rest);
                    assert(piece.deep_view() =~= piece@);
                }
                out.push(piece);
                proof {
                    assert(out.deep_view() =~= before.push(piece.deep_view()));
                    assert(out.deep_view() =~= before + split_on(rest, c));
                }
                return out;
            },
        }
    }
}

/// A decimal digit.
pub open spec fn is_digit(c: char) -> bool {
    '0' <= c && c <= '9'
}

/// At least one character, all decimal digits.
pub open spec fn all_digits(s: Seq<char>) -> bool {
    s.len() > 0 && forall|i: int| 0 <= i < s.len() ==> #[trigger] is_digit(s[i])
}

/// The value of a string of decimal digits.
pub open spec fn digits_value(s: Seq<char>) -> nat
    decreases s.len(),
{
    if s.len() == 0 {
        0
    } else {
        digits_value(s.drop_last()) * 10 + ((s.last() as u32) - ('0' as u32)) as nat
    }
}

/// Rust's decimal integer syntax: an optional `+` (or `-` when `signed`)
/// followed by one or more digits.
pub open spec fn parse_integer(s: Seq<char>, signed: bool) -> Option<int> {
    if s.len() > 0 && s[0] == '+' {
        if all_digits(s.drop_first()) { Some(digits_value(s.drop_first()) as int) } else { None }
    } else if signed && s.len() > 0 && s[0] == '-' {
        if all_digits(s.drop_first()) { Some(-(digits_value(s.drop_first()) as int)) } else { None }
    } else if all_digits(s) {
        Some(digits_value(s) as int)
    } else {
        None
    }
}

/// An integer of `s` in the range `lo..=hi`, as Rust's `FromStr` for the
/// integer type of that range reads it.
pub open spec fn parse_in_range(s: Seq<char>, signed: bool, lo: int, hi: int) -> Option<int> {
    match parse_integer(s, signed) {
        Some(v) => if lo <= v && v <= hi { Some(v) } else { None },
        None => None,
    }
}

/// Read `s` as an integer in `lo..=hi` (see `parse_in_range`). The range must
/// fit in 64-bit integers.
pub fn parse_int(s: &[char], signed: bool, lo: i128, hi: i128) -> (r: Option<i128>)
    requires
        -0x8000_0000_0000_0000 <= lo <= 0,
        0 <= hi <= 0xffff_ffff_ffff_ffff,
    ensures
        match r {
            Some(v) => parse_in_range(s@, signed, lo as int, hi as int) == Some(v as int),
            None => parse_in_range(s@, signed, lo as int, hi as int) is None,
        },
{
    let n = s.len();
    if n == 0 {
        return None;
    }
    let mut start: usize = 0;
    let mut neg = false;
    if s[0] == '+' {
        start = 1;
    } else if signed && s[0] == '-' {
        start = 1;
        neg = true;
    }
    if start >= n {
        proof {
            assert(!all_digits(s@.drop_first()));
        }
        return None;
    }
    let ghost body = s@.skip(start as int);
    proof {
        if start == 1 {
            assert(body =~= s@.drop_first());
        } else {
            assert(body =~= s@);
            if s@[0] == '-' || s@[0] == '+' {
                assert(!is_digit(s@[0]));
            }
        }
        assert(parse_integer(s@, signed) == if all_digits(body) {
            Some(if neg { -(digits_value(body) as int) } else { digits_value(body) as int })
        } else {
            None::<int>
        });
    }
    let cap: i128 = 0x1_0000_0000_0000_0000;
    let mut acc: i128 = 0;
    let mut over = false;
    let mut i = start;
    while i < n
        invariant
            start <= i <= n,
            n == s@.len(),
            cap == 0x1_0000_0000_0000_0000,
            body == s@.skip(start as int),
            parse_integer(s@, signed) == if all_digits(body) {
                Some(if neg { -(digits_value(body) as int) } else { digits_value(body) as int })
            } else {
                None::<int>
            },
            forall|j: int| start <= j < i ==> is_digit(#[trigger] s@[j]),
            0 <= acc <= cap,
            !over ==> acc == digits_value(s@.subrange(start as int, i as int)),
            over ==> digits_value(s@.subrange(start as int, i as int)) > cap,
        decreases n - i,
    {
        let c = s[i];
        if !('0' <= c && c <= '9') {
            proof {
                assert(!is_digit(body[i - start]));
                assert(!all_digits(body));
            }
            return None;
        }
        let d = (c as u32 - '0' as u32) as i128;
        proof {
            assert(s@.subrange(start as int, i + 1).drop_last() =~= s@.subrange(start as int, i as int));
        }
        if !over {
            let next = acc * 10 + d;
            if next > cap {
                over = true;
            } else {
                acc = next;
            }
        }
        i += 1;
    }
    proof {
        assert(s@.subrange(start as int, n as int) =~= body);
        assert(all_digits(body));
    }
    if over {
        return None;
    }
    let v = if neg { -acc } else { acc };
    if v < lo || v > hi {
        return None;
    }
    Some(v)
}

} // verus!

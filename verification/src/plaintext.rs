//! The decrypted stream as it is handed out for comparison.

use vstd::prelude::*;

verus! {

/// `s` without its trailing zero bytes.
pub open spec fn nuls_trimmed(s: Seq<u8>) -> Seq<u8>
    decreases s.len(),
{
    if s.len() > 0 && s.last() == 0 {
        nuls_trimmed(s.drop_last())
    } else {
        s
    }
}

/// The decrypted stream without its trailing zero bytes, so that byte
/// comparisons of two streams do not depend on padding.
pub fn trim_trailing_nuls(plain: &[u8]) -> (r: Vec<u8>)
    ensures
        r@ == nuls_trimmed(plain@),
        exists|k: int|
            0 <= k <= plain@.len() && r@ == plain@.take(k) && (k == 0 || plain@[k - 1] != 0) && forall|i: int|
                k <= i < plain@.len() ==> #[trigger] plain@[i] == 0,
{
    let mut e = plain.len();
    proof {
        assert(plain@.take(e as int) =~= plain@);
    }
    while e > 0 && plain[e - 1] == 0
        invariant
            e <= plain@.len(),
            nuls_trimmed(plain@) == nuls_trimmed(plain@.take(e as int)),
            forall|i: int| e <= i < plain@.len() ==> #[trigger] plain@[i] == 0,
        decreases e,
    {
        proof {
            assert(plain@.take(e as int).drop_last() =~= plain@.take(e - 1));
        }
        e -= 1;
    }
    let mut out: Vec<u8> = Vec::new();
    let mut i: usize = 0;
    while i < e
        invariant
            i <= e <= plain@.len(),
            out@ == plain@.take(i as int),
        decreases e - i,
    {
        out.push(plain[i]);
        proof {
            assert(plain@.take(i + 1) =~= plain@.take(i as int).push(plain@[i as int]));
        }
        i += 1;
    }
    proof {
        assert(nuls_trimmed(plain@.take(e as int)) == plain@.take(e as int));
        assert(e == 0 || plain@[e - 1] != 0);
    }
    out
}

} // verus!

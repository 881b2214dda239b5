//! Integer conversions of IEEE-754 values held by their bit patterns, as
//! Rust's `as` casts do them: rounded toward zero, saturated at the bounds of
//! the target type, NaN to zero.

use vstd::prelude::*;
use vstd::arithmetic::power2::{pow2, lemma_pow2_unfold, lemma_pow2_pos, lemma_pow2_adds, lemma_pow2_strictly_increases};
use vstd::arithmetic::div_mod::{lemma_div_denominator, lemma_div_is_ordered};
use vstd::arithmetic::mul::lemma_mul_inequality;

verus! {

/// `sig * 2^e`, rounded toward zero.
pub open spec fn trunc_mag(sig: nat, e: int) -> nat {
    if e >= 0 {
        sig * pow2(e as nat)
    } else {
        sig / pow2((-e) as nat)
    }
}

pub open spec fn min_nat(a: nat, b: nat) -> nat {
    if a <= b {
        a
    } else {
        b
    }
}

/// The biased exponent of an `f32`.
pub open spec fn f32_exp(b: u32) -> nat {
    ((b as nat) / 0x80_0000) % 0x100
}

/// The fraction field of an `f32`.
pub open spec fn f32_frac(b: u32) -> nat {
    (b as nat) % 0x80_0000
}

/// The magnitude of a finite `f32`, rounded toward zero.
pub open spec fn f32_mag(b: u32) -> nat {
    let ex = f32_exp(b);
    if ex == 0 {
        trunc_mag(f32_frac(b), 1 - 150)
    } else {
        trunc_mag(f32_frac(b) + 0x80_0000, ex - 150)
    }
}

/// `f as u32` for the `f32` with bits `b`.
pub open spec fn f32_as_u32(b: u32) -> u32 {
    if f32_exp(b) == 0xff {
        if f32_frac(b) != 0 || b >= 0x8000_0000 {
            0
        } else {
            0xffff_ffff
        }
    } else if b >= 0x8000_0000 {
        0
    } else {
        min_nat(f32_mag(b), 0xffff_ffff) as u32
    }
}

/// The biased exponent of an `f64`.
pub open spec fn f64_exp(b: u64) -> nat {
    ((b as nat) / 0x10_0000_0000_0000) % 0x800
}

/// The fraction field of an `f64`.
pub open spec fn f64_frac(b: u64) -> nat {
    (b as nat) % 0x10_0000_0000_0000
}

/// The magnitude of a finite `f64`, rounded toward zero.
pub open spec fn f64_mag(b: u64) -> nat {
    let ex = f64_exp(b);
    if ex == 0 {
        trunc_mag(f64_frac(b), 1 - 1075)
    } else {
        trunc_mag(f64_frac(b) + 0x10_0000_0000_0000, ex - 1075)
    }
}

/// `f as u64` for the `f64` with bits `b`.
pub open spec fn f64_as_u64(b: u64) -> u64 {
    if f64_exp(b) == 0x7ff {
        if f64_frac(b) != 0 || b >= 0x8000_0000_0000_0000 {
            0
        } else {
            0xffff_ffff_ffff_ffff
        }
    } else if b >= 0x8000_0000_0000_0000 {
        0
    } else {
        min_nat(f64_mag(b), 0xffff_ffff_ffff_ffff) as u64
    }
}

/// `f as i64` for the `f64` with bits `b`.
pub open spec fn f64_as_i64(b: u64) -> i64 {
    if f64_exp(b) == 0x7ff {
        if f64_frac(b) != 0 {
            0
        } else if b >= 0x8000_0000_0000_0000 {
            i64::MIN
        } else {
            0x7fff_ffff_ffff_ffff
        }
    } else if b >= 0x8000_0000_0000_0000 {
        (-(min_nat(f64_mag(b), 0x8000_0000_0000_0000) as int)) as i64
    } else {
        min_nat(f64_mag(b), 0x7fff_ffff_ffff_ffff) as i64
    }
}

/// `min(sig * 2^e rounded toward zero, cap)`.
fn trunc_capped(sig: u64, e: i32, cap: u64) -> (r: u64)
    requires
        -2000 <= e <= 2000,
    ensures
        r as nat == min_nat(trunc_mag(sig as nat, e as int), cap as nat),
{
    if e >= 0 {
        let mut x: u128 = sig as u128;
        let mut i: i32 = 0;
        proof {
            vstd::arithmetic::power2::lemma2_to64();
            assert(pow2(0) == 1);
            assert((sig as nat) * pow2(0) == sig as nat);
            assert((sig as nat) / pow2(0) == sig as nat);
        }
        while i < e && x <= cap as u128
            invariant
                0 <= i <= e,
                x as nat == (sig as nat) * pow2(i as nat),
            decreases e - i,
        {
            proof {
                lemma_pow2_unfold((i + 1) as nat);
                assert((sig as nat) * pow2((i + 1) as nat) == 2 * ((sig as nat) * pow2(i as nat))) by (nonlinear_arith)
                    requires
                        pow2((i + 1) as nat) == 2 * pow2(i as nat),
                ;
            }
            x = x * 2;
            i += 1;
        }
        proof {
            if i < e {
                lemma_pow2_adds(i as nat, (e - i) as nat);
                lemma_pow2_pos((e - i) as nat);
                let k = pow2((e - i) as nat);
                assert((sig as nat) * pow2(e as nat) == (x as nat) * k) by (nonlinear_arith)
                    requires
                        pow2(e as nat) == pow2(i as nat) * k,
                        x as nat == (sig as nat) * pow2(i as nat),
                ;
                assert((x as nat) * k >= x as nat) by (nonlinear_arith)
                    requires
                        k >= 1,
                ;
            }
        }
        if x > cap as u128 {
            cap
        } else {
            x as u64
        }
    } else {
        let n: i32 = -e;
        let mut x: u64 = sig;
        let mut i: i32 = 0;
        proof {
            vstd::arithmetic::power2::lemma2_to64();
            assert(pow2(0) == 1);
            assert((sig as nat) * pow2(0) == sig as nat);
            assert((sig as nat) / pow2(0) == sig as nat);
        }
        while i < n && x > 0
            invariant
                0 <= i <= n,
                n == -e,
                x as nat == (sig as nat) / pow2(i as nat),
            decreases n - i,
        {
            proof {
                lemma_pow2_unfold((i + 1) as nat);
                lemma_pow2_pos(i as nat);
                lemma_div_denominator(sig as int, pow2(i as nat) as int, 2);
                assert(pow2(i as nat) * 2 == pow2((i + 1) as nat));
            }
            x = x / 2;
            i += 1;
        }
        proof {
            if i < n {
                lemma_pow2_strictly_increases(i as nat, n as nat);
                lemma_pow2_pos(i as nat);
                lemma_div_is_ordered(0, sig as int, pow2(n as nat) as int);
                // sig < 2^i <= 2^n, so sig / 2^n == 0
                assert((sig as nat) / pow2(i as nat) == 0);
                assert((sig as nat) < pow2(i as nat)) by (nonlinear_arith)
                    requires
                        (sig as nat) / pow2(i as nat) == 0,
                        pow2(i as nat) > 0,
                ;
                assert((sig as nat) / pow2(n as nat) == 0) by (nonlinear_arith)
                    requires
                        (sig as nat) < pow2(n as nat),
                ;
            }
        }
        if x > cap {
            cap
        } else {
            x
        }
    }
}

/// `f as u32` for the `f32` with bits `b`.
pub fn f32_to_u32(b: u32) -> (r: u32)
    ensures
        r == f32_as_u32(b),
{
    let ex: u32 = (b / 0x80_0000) % 0x100;
    let frac: u32 = b % 0x80_0000;
    if ex == 0xff {
        if frac != 0 || b >= 0x8000_0000 {
            0
        } else {
            0xffff_ffff
        }
    } else if b >= 0x8000_0000 {
        0
    } else if ex == 0 {
        trunc_capped(frac as u64, 1 - 150, 0xffff_ffff) as u32
    } else {
        trunc_capped(frac as u64 + 0x80_0000, ex as i32 - 150, 0xffff_ffff) as u32
    }
}

/// The rounded-toward-zero magnitude of a finite `f64`, capped.
fn f64_mag_capped(b: u64, cap: u64) -> (r: u64)
    requires
        f64_exp(b) != 0x7ff,
    ensures
        r as nat == min_nat(f64_mag(b), cap as nat),
{
    let ex: u64 = (b / 0x10_0000_0000_0000) % 0x800;
    let frac: u64 = b % 0x10_0000_0000_0000;
    if ex == 0 {
        trunc_capped(frac, 1 - 1075, cap)
    } else {
        trunc_capped(frac + 0x10_0000_0000_0000, ex as i32 - 1075, cap)
    }
}

/// `f as u64` for the `f64` with bits `b`.
pub fn f64_to_u64(b: u64) -> (r: u64)
    ensures
        r == f64_as_u64(b),
{
    let ex: u64 = (b / 0x10_0000_0000_0000) % 0x800;
    let frac: u64 = b % 0x10_0000_0000_0000;
    if ex == 0x7ff {
        if frac != 0 || b >= 0x8000_0000_0000_0000 {
            0
        } else {
            0xffff_ffff_ffff_ffff
        }
    } else if b >= 0x8000_0000_0000_0000 {
        0
    } else {
        f64_mag_capped(b, 0xffff_ffff_ffff_ffff)
    }
}

/// `f as i64` for the `f64` with bits `b`.
pub fn f64_to_i64(b: u64) -> (r: i64)
    ensures
        r == f64_as_i64(b),
{
    let ex: u64 = (b / 0x10_0000_0000_0000) % 0x800;
    let frac: u64 = b % 0x10_0000_0000_0000;
    if ex == 0x7ff {
        if frac != 0 {
            0
        } else if b >= 0x8000_0000_0000_0000 {
            i64::MIN
        } else {
            i64::MAX
        }
    } else if b >= 0x8000_0000_0000_0000 {
        let m = f64_mag_capped(b, 0x8000_0000_0000_0000);
        (-(m as i128)) as i64
    } else {
        f64_mag_capped(b, 0x7fff_ffff_ffff_ffff) as i64
    }
}

} // verus!

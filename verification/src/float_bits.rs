use vstd::prelude::*;
use vstd::arithmetic::power2::{pow2, lemma_pow2_adds, lemma_pow2_pos};

verus! {

/// Whether a single-precision bit pattern is a finite number.
pub open spec fn f32_is_finite(b: u32) -> bool {
    (b / 0x80_0000) % 0x100 != 0xff
}

/// Whether a double-precision bit pattern is a finite number.
pub open spec fn f64_is_finite(b: u64) -> bool {
    (b / 0x10_0000_0000_0000) % 0x800 != 0x7ff
}

/// Whether a double-precision bit pattern is a number above zero: a clear
/// sign bit, not zero, and not a NaN (positive infinity counts).
pub open spec fn f64_positive(b: u64) -> bool {
    0 < b <= 0x7ff0_0000_0000_0000
}

/// Whether a double-precision bit pattern is zero, of either sign.
pub open spec fn f64_zero(b: u64) -> bool {
    b == 0 || b == 0x8000_0000_0000_0000
}

/// The largest power of two not above `m` (1 for 0 and 1).
pub open spec fn pow_floor(m: nat) -> nat
    decreases m,
{
    if m < 2 {
        1
    } else {
        2 * pow_floor(m / 2)
    }
}

/// The exponent of [`pow_floor`].
pub open spec fn log_floor(m: nat) -> nat
    decreases m,
{
    if m < 2 {
        0
    } else {
        1 + log_floor(m / 2)
    }
}

/// The double-precision bit pattern of the value that a finite
/// single-precision bit pattern denotes: the sign is kept, the exponent is
/// re-biased (from 127 to 1023) and the fraction is extended by 29 zero bits;
/// a subnormal fraction is normalised.
pub open spec fn f32_widened(b: u32) -> u64 {
    let sign = b as int / 0x8000_0000;
    let e = (b as int / 0x80_0000) % 0x100;
    let m = b as int % 0x80_0000;
    let top = sign * 0x8000_0000_0000_0000;
    if e == 0 && m == 0 {
        top as u64
    } else if e == 0 {
        let p = pow_floor(m as nat) as int;
        (top + (log_floor(m as nat) + 874) * 0x10_0000_0000_0000 + (m - p) * (0x10_0000_0000_0000int
            / p)) as u64
    } else {
        (top + (e + 896) * 0x10_0000_0000_0000 + m * 0x2000_0000) as u64
    }
}

proof fn lemma_pow_floor_unique(m: nat, p: nat, k: nat)
    requires
        p == pow2(k),
        p <= m < 2 * p,
    ensures
        pow_floor(m) == p,
        log_floor(m) == k,
    decreases k,
{
    vstd::arithmetic::power2::lemma2_to64();
    if k == 0 {
        assert(p == 1);
    } else {
        vstd::arithmetic::power2::lemma_pow2_unfold(k);
        let h = pow2((k - 1) as nat);
        assert(p == 2 * h);
        assert(h <= m / 2 < 2 * h);
        lemma_pow_floor_unique(m / 2, h, (k - 1) as nat);
    }
}

/// Widens a finite single-precision bit pattern to double precision.
pub fn widen_f32_bits(b: u32) -> (r: u64)
    requires
        f32_is_finite(b),
    ensures
        r == f32_widened(b),
{
    let sign = (b / 0x8000_0000) as u64;
    let e = ((b / 0x80_0000) % 0x100) as u64;
    let m = (b % 0x80_0000) as u64;
    let top = sign * 0x8000_0000_0000_0000;
    if e == 0 && m == 0 {
        top
    } else if e == 0 {
        let mut p: u64 = 1;
        let mut k: u64 = 0;
        proof {
            vstd::arithmetic::power2::lemma2_to64();
        }
        while p <= m / 2
            invariant
                1 <= m < 0x80_0000,
                p == pow2(k as nat),
                1 <= p <= m,
                k < 23,
            decreases m - p,
        {
            proof {
                vstd::arithmetic::power2::lemma_pow2_unfold((k + 1) as nat);
            }
            p = p * 2;
            k = k + 1;
            proof {
                if k >= 23 {
                    vstd::arithmetic::power2::lemma2_to64();
                    if k > 23 {
                        vstd::arithmetic::power2::lemma_pow2_strictly_increases(23, k as nat);
                    }
                }
            }
        }
        proof {
            lemma_pow_floor_unique(m as nat, p as nat, k as nat);
            vstd::arithmetic::power2::lemma2_to64();
            vstd::arithmetic::power2::lemma_pow2_adds(k as nat, (52 - k) as nat);
            vstd::arithmetic::power2::lemma_pow2_pos((52 - k) as nat);
            vstd::arithmetic::power2::lemma2_to64_rest();
            assert((k as nat + (52 - k) as nat) as nat == 52);
            assert(pow2(52) == 0x10_0000_0000_0000);
        }
        let q: u64 = 0x10_0000_0000_0000 / p;
        assert(q * p == 0x10_0000_0000_0000 && q >= 1) by (nonlinear_arith)
            requires
                q == 0x10_0000_0000_0000u64 / p,
                p * pow2((52 - k) as nat) == 0x10_0000_0000_0000,
                p >= 1,
                pow2((52 - k) as nat) >= 1,
        ;
        assert((m - p) * q < 0x10_0000_0000_0000) by (nonlinear_arith)
            requires
                q * p == 0x10_0000_0000_0000,
                m < 2 * p,
                p <= m,
        ;
        top + (k + 874) * 0x10_0000_0000_0000 + (m - p) * q
    } else {
        top + (e + 896) * 0x10_0000_0000_0000 + m * 0x2000_0000
    }
}

/// The integer part of the value that a double-precision bit pattern
/// denotes, as a cast to `i64` takes it: truncated toward zero, saturated at
/// the ends of the range (infinities among them), 0 for NaN.
pub open spec fn f64_trunc(b: u64) -> i64 {
    let neg = b >= 0x8000_0000_0000_0000u64;
    let e = (b as int / 0x10_0000_0000_0000) % 0x800;
    let m = b as int % 0x10_0000_0000_0000;
    if e == 0x7ff && m != 0 {
        0
    } else if e >= 1086 {
        if neg {
            i64::MIN
        } else {
            i64::MAX
        }
    } else if e < 1023 {
        0
    } else {
        let mag = ((0x10_0000_0000_0000 + m) * pow2((e - 1023) as nat)) / (pow2(52) as int);
        if neg {
            (-mag) as i64
        } else {
            mag as i64
        }
    }
}

proof fn lemma_trunc_magnitude(sig: u64, e: u64, mag: u64)
    requires
        0x10_0000_0000_0000 <= sig < 0x20_0000_0000_0000,
        1023 <= e < 1086,
        e >= 1075 ==> mag == sig * pow2((e - 1075) as nat),
        e < 1075 ==> mag == sig as nat / pow2((1075 - e) as nat),
    ensures
        mag == (sig * pow2((e - 1023) as nat)) / (pow2(52) as int),
{
    let p52 = pow2(52);
    lemma_pow2_pos(52);
    if e >= 1075 {
        let k = (e - 1075) as nat;
        lemma_pow2_adds(k, 52);
        assert((e - 1023) as nat == k + 52);
        lemma_pow2_pos(k);
        assert(sig * pow2(k + 52) == (sig * pow2(k)) * p52) by (nonlinear_arith)
            requires
                pow2(k + 52) == pow2(k) * p52,
        ;
        vstd::arithmetic::div_mod::lemma_div_by_multiple((sig * pow2(k)) as int, p52 as int);
    } else {
        let j = (1075 - e) as nat;
        let i = (e - 1023) as nat;
        assert(i + j == 52);
        lemma_pow2_adds(i, j);
        lemma_pow2_pos(i);
        lemma_pow2_pos(j);
        vstd::arithmetic::div_mod::lemma_div_denominator((sig * pow2(i)) as int, pow2(i) as int, pow2(j) as int);
        vstd::arithmetic::div_mod::lemma_div_by_multiple(sig as int, pow2(i) as int);
    }
}

/// The integer part of a double-precision value given by its bits, as a
/// cast to `i64` takes it.
pub fn f64_trunc_bits(b: u64) -> (r: i64)
    ensures
        r == f64_trunc(b),
{
    let neg = b >= 0x8000_0000_0000_0000u64;
    let e: u64 = (b >> 52u64) & 0x7ff;
    let m: u64 = b & 0xf_ffff_ffff_ffff;
    assert(e == (b as int / 0x10_0000_0000_0000) % 0x800) by (bit_vector)
        requires
            e == (b >> 52u64) & 0x7ff,
    ;
    assert(m == b as int % 0x10_0000_0000_0000) by (bit_vector)
        requires
            m == b & 0xf_ffff_ffff_ffff,
    ;
    if e == 0x7ff && m != 0 {
        return 0;
    }
    if e >= 1086 {
        return if neg {
            i64::MIN
        } else {
            i64::MAX
        };
    }
    if e < 1023 {
        return 0;
    }
    let sig: u64 = m + 0x10_0000_0000_0000;
    let mag: u64 = if e >= 1075 {
        let k: u64 = e - 1075;
        proof {
            vstd::arithmetic::power2::lemma2_to64();
            vstd::arithmetic::power2::lemma_pow2_strictly_increases(k as nat, 11);
            assert(sig * pow2(k as nat) <= u64::MAX) by (nonlinear_arith)
                requires
                    sig < 0x20_0000_0000_0000,
                    pow2(k as nat) < 0x800,
            ;
            vstd::bits::lemma_u64_shl_is_mul(sig, k);
        }
        sig << k
    } else {
        let j: u64 = 1075 - e;
        proof {
            vstd::bits::lemma_u64_shr_is_div(sig, j);
        }
        sig >> j
    };
    proof {
        lemma_trunc_magnitude(sig, e, mag);
        vstd::arithmetic::power2::lemma2_to64();
        vstd::arithmetic::power2::lemma2_to64_rest();
        let p = pow2((e - 1023) as nat);
        if e - 1023 < 62 {
            vstd::arithmetic::power2::lemma_pow2_strictly_increases((e - 1023) as nat, 62);
        }
        assert(mag < 0x8000_0000_0000_0000) by (nonlinear_arith)
            requires
                mag == (sig * p) / (pow2(52) as int),
                sig < 0x20_0000_0000_0000,
                p <= pow2(62),
                pow2(62) == 0x4000_0000_0000_0000,
                pow2(52) == 0x10_0000_0000_0000,
        ;
    }
    if neg {
        0 - (mag as i64)
    } else {
        mag as i64
    }
}

} // verus!

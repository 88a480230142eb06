//! Exact binary64 arithmetic over integer mantissa/exponent pairs.
//!
//! The pseudo-random generator and the interval fuzz work on IEEE 754
//! double-precision values, but only ever add, subtract, multiply, scale by a
//! power of two, and truncate.  Those operations round an exact dyadic
//! rational to 53 significant bits (round to nearest, ties to even), so their
//! results can be computed exactly with integer arithmetic.  `Fp` holds a
//! nonnegative double as `m * 2^e` with a normalized 53-bit mantissa, and the
//! operations below mirror the hardware behaviour bit for bit.
use vstd::prelude::*;
use vstd::arithmetic::power2::*;
use vstd::arithmetic::mul::*;
use vstd::arithmetic::div_mod::*;

verus! {

/// A nonnegative double-precision value `m * 2^e`.  Zero is `m == 0, e == 0`;
/// every other value keeps `2^52 <= m < 2^53`.
#[derive(Debug, Clone, Copy, PartialEq, Eq, Structural, Hash)]
pub struct Fp {
    pub m: u64,
    pub e: i64,
}

/// Well-formed: canonical zero, or a normalized mantissa with the exponent
/// far from `i64` overflow.
pub open spec fn fp_wf(a: Fp) -> bool {
    (a.m == 0 && a.e == 0) || (pow2(52) <= a.m < pow2(53) && -500_000_000_000_000_000 <= a.e
        <= 500_000_000_000_000_000)
}

/// The exponent window accepted by the arithmetic operations.
pub open spec fn fp_mid(a: Fp) -> bool {
    -200_000_000_000_000_000 <= a.e <= 200_000_000_000_000_000
}

pub open spec fn fp_zero() -> Fp {
    Fp { m: 0, e: 0 }
}

/// Number of significant bits of a natural number.
pub open spec fn blen(m: nat) -> nat
    decreases m,
{
    if m == 0 {
        0
    } else {
        blen(m / 2) + 1
    }
}

/// Round `bm * 2^be` to 53 significant bits, to nearest, ties to even.
/// This is exactly how an IEEE 754 double rounds any exact intermediate
/// value that stays inside the normal range.
pub open spec fn fp_round(bm: nat, be: int) -> Fp {
    if bm == 0 {
        fp_zero()
    } else {
        let b = blen(bm);
        if b <= 53 {
            Fp { m: (bm * pow2((53 - b) as nat)) as u64, e: (be - (53 - b)) as i64 }
        } else {
            let k = (b - 53) as nat;
            let q = bm / pow2(k);
            let r = bm % pow2(k);
            let half = pow2((k - 1) as nat);
            let q2 = if r < half {
                q
            } else if r > half {
                q + 1
            } else if q % 2 == 0 {
                q
            } else {
                q + 1
            };
            if q2 == pow2(53) {
                Fp { m: pow2(52) as u64, e: (be + k + 1) as i64 }
            } else {
                Fp { m: q2 as u64, e: (be + k) as i64 }
            }
        }
    }
}

/// Value order on well-formed `Fp` (the mantissa is normalized, so the
/// exponent orders first and the mantissa breaks ties).
pub open spec fn fp_lt_spec(a: Fp, b: Fp) -> bool {
    if a.m == 0 {
        b.m != 0
    } else if b.m == 0 {
        false
    } else {
        a.e < b.e || (a.e == b.e && a.m < b.m)
    }
}

pub open spec fn fp_le_spec(a: Fp, b: Fp) -> bool {
    !fp_lt_spec(b, a)
}

/// The rounded sum.  When the exponents lie more than 75 binades apart the
/// smaller operand is far below half an ulp of the larger one, so rounding
/// to nearest returns the larger operand unchanged; the threshold also keeps
/// the exact aligned sum inside 128 bits.
pub open spec fn fp_add_spec(a: Fp, b: Fp) -> Fp {
    if a.m == 0 {
        fp_round(b.m as nat, b.e as int)
    } else if b.m == 0 {
        fp_round(a.m as nat, a.e as int)
    } else if a.e >= b.e {
        if a.e - b.e <= 75 {
            fp_round((a.m * pow2((a.e - b.e) as nat) + b.m) as nat, b.e as int)
        } else {
            a
        }
    } else {
        if b.e - a.e <= 75 {
            fp_round((b.m * pow2((b.e - a.e) as nat) + a.m) as nat, a.e as int)
        } else {
            b
        }
    }
}

/// The rounded absolute difference, `|a - b|`.  As with the sum, a gap of
/// more than 75 binades leaves the larger operand unchanged.
pub open spec fn fp_sub_abs_spec(a0: Fp, b0: Fp) -> Fp {
    let a = if fp_lt_spec(a0, b0) {
        b0
    } else {
        a0
    };
    let b = if fp_lt_spec(a0, b0) {
        a0
    } else {
        b0
    };
    if b.m == 0 {
        fp_round(a.m as nat, a.e as int)
    } else if a.e - b.e <= 75 {
        fp_round((a.m * pow2((a.e - b.e) as nat) - b.m) as nat, b.e as int)
    } else {
        a
    }
}

/// The rounded product.
pub open spec fn fp_mul_spec(a: Fp, b: Fp) -> Fp {
    if a.m == 0 || b.m == 0 {
        fp_zero()
    } else {
        fp_round((a.m * b.m) as nat, a.e + b.e)
    }
}

/// The fused multiply-add `k * a + bm * 2^be` with a single rounding, for an
/// integer factor `k` and an integer addend `bm * 2^be`.  When the aligned
/// exact sum would exceed 128 bits, the dominant side is at least 2^53 ulps
/// above the other, so the other side lies strictly below half an ulp and
/// cannot affect the rounding — not even by breaking a tie, since with the
/// factor below 2^22 and the addend below 2^53 the dropped side never lands
/// exactly on one.
pub open spec fn fp_fma_spec(a: Fp, k: nat, bm: nat, be: int) -> Fp {
    let p = (k * a.m) as nat;
    if p == 0 {
        fp_round(bm, be)
    } else if bm == 0 {
        fp_round(p, a.e as int)
    } else if be >= a.e {
        if blen(bm) + (be - a.e) <= 128 {
            fp_round((bm * pow2((be - a.e) as nat) + p) as nat, a.e as int)
        } else {
            fp_round(bm, be)
        }
    } else {
        if blen(p) + (a.e - be) <= 128 {
            fp_round((p * pow2((a.e - be) as nat) + bm) as nat, be)
        } else {
            fp_round(p, a.e as int)
        }
    }
}

/// The integer part of a well-formed value (truncation toward zero).
pub open spec fn fp_trunc_spec(a: Fp) -> nat {
    if a.m == 0 {
        0
    } else if a.e >= 0 {
        (a.m * pow2(a.e as nat)) as nat
    } else if a.e <= -53 {
        0
    } else {
        ((a.m as nat) / pow2((-a.e) as nat)) as nat
    }
}

/// Multiplication by `2^k`, which is exact on doubles in the normal range.
pub open spec fn fp_scale_spec(a: Fp, k: int) -> Fp {
    if a.m == 0 {
        fp_zero()
    } else {
        Fp { m: a.m, e: (a.e + k) as i64 }
    }
}

pub proof fn lemma_blen_bounds(m: nat)
    requires
        m > 0,
    ensures
        pow2((blen(m) - 1) as nat) <= m < pow2(blen(m)),
    decreases m,
{
    lemma2_to64();
    if m == 1 {
        assert(blen(0nat) == 0);
        assert(blen(1nat) == blen(0nat) + 1);
    } else {
        lemma_blen_bounds(m / 2);
        let b = blen(m / 2);
        lemma_pow2_unfold((b + 1) as nat);
        lemma_pow2_unfold(b);
    }
}

pub proof fn lemma_blen_le(m: nat, k: nat)
    requires
        m < pow2(k),
    ensures
        blen(m) <= k,
{
    if m > 0 {
        lemma_blen_bounds(m);
        if blen(m) > k {
            if k < blen(m) - 1 {
                lemma_pow2_strictly_increases(k, (blen(m) - 1) as nat);
            }
            assert(false);
        }
    }
}

pub proof fn lemma_blen_ge(m: nat, k: nat)
    requires
        m >= pow2(k),
    ensures
        blen(m) >= k + 1,
{
    lemma_pow2_pos(k);
    lemma_blen_bounds(m);
    if blen(m) < k + 1 {
        if blen(m) < k {
            lemma_pow2_strictly_increases(blen(m), k);
        }
        assert(false);
    }
}


/// A larger number has at least as many significant bits.
pub proof fn lemma_blen_monotone(x: nat, y: nat)
    requires
        x <= y,
    ensures
        blen(x) <= blen(y),
{
    if x > 0 {
        lemma_blen_bounds(x);
        lemma_blen_bounds(y);
        if blen(x) > blen(y) {
            lemma_pow2_strictly_increases(blen(y), (blen(x) - 1) as nat);
            if blen(y) == blen(x) - 1 {
            }
            assert(false);
        }
    }
}

/// If the low part fits under the shift, the aligned sum keeps the width of
/// the shifted part: `x * 2^g + y < 2^(blen(x) + g)`.
proof fn lemma_fit_under(x: nat, g: nat, y: nat)
    requires
        x > 0,
        y < pow2(g),
    ensures
        x * pow2(g) + y < pow2((blen(x) + g) as nat),
        blen((x * pow2(g) + y) as nat) <= blen(x) + g,
{
    lemma_blen_bounds(x);
    lemma_pow2_adds(blen(x), g);
    lemma_pow2_pos(g);
    assert(x * pow2(g) <= (pow2(blen(x)) - 1) * pow2(g)) by {
        lemma_mul_inequality(x as int, pow2(blen(x)) as int - 1, pow2(g) as int);
    };
    assert((pow2(blen(x)) - 1) * pow2(g) == pow2(blen(x)) * pow2(g) - pow2(g)) by {
        lemma_mul_is_distributive_sub_other_way(pow2(g) as int, pow2(blen(x)) as int, 1);
    };
    lemma_blen_le((x * pow2(g) + y) as nat, (blen(x) + g) as nat);
}

/// In general the aligned sum is one bit wider than the wider of its parts.
proof fn lemma_fit_wide(x: nat, g: nat, y: nat, yb: nat)
    requires
        x > 0,
        y < pow2(yb),
    ensures
        x * pow2(g) + y < pow2(((if blen(x) + g >= yb { blen(x) + g } else { yb }) + 1) as nat),
        blen((x * pow2(g) + y) as nat) <= (if blen(x) + g >= yb { blen(x) + g } else { yb }) + 1,
{
    let t = if blen(x) + g >= yb { (blen(x) + g) as nat } else { yb };
    lemma_blen_bounds(x);
    lemma_pow2_adds(blen(x), g);
    lemma_pow2_pos(g);
    assert(x * pow2(g) < pow2((blen(x) + g) as nat)) by {
        lemma_mul_strict_inequality(x as int, pow2(blen(x)) as int, pow2(g) as int);
    };
    assert(pow2((blen(x) + g) as nat) <= pow2(t)) by {
        if blen(x) + g < t {
            lemma_pow2_strictly_increases((blen(x) + g) as nat, t);
        }
    };
    assert(pow2(yb) <= pow2(t)) by {
        if yb < t {
            lemma_pow2_strictly_increases(yb, t);
        }
    };
    lemma_pow2_unfold((t + 1) as nat);
    lemma_blen_le((x * pow2(g) + y) as nat, (t + 1) as nat);
}

/// The rounded mantissa is normalized and the exponent moves by at most the
/// width of the input: rounding `bm * 2^be` yields an exponent between
/// `be - 52` and `be + blen(bm) - 52`.
pub proof fn lemma_fp_round_range(bm: nat, be: int)
    requires
        bm > 0,
        bm <= 0xffffffffffffffffffffffffffffffff,
        -1_000_000_000_000_000_000 <= be <= 1_000_000_000_000_000_000,
    ensures
        pow2(52) <= fp_round(bm, be).m < pow2(53),
        be - 52 <= fp_round(bm, be).e as int <= be + blen(bm) - 52,
        fp_round(bm, be).e as int >= be + blen(bm) - 53,
        blen(bm) <= 53 ==> fp_round(bm, be).m == bm * pow2((53 - blen(bm)) as nat) && fp_round(
            bm,
            be,
        ).e as int == be - (53 - blen(bm)),
{
    let b = blen(bm);
    lemma_blen_bounds(bm);
    lemma2_to64();
    lemma2_to64_rest();
    assert(blen(bm) <= 128) by {
        lemma_pow2_adds(64, 64);
        lemma_blen_le(bm, 128);
    };
    if b <= 53 {
        let s = (53 - b) as nat;
        lemma_pow2_adds((b - 1) as nat, s);
        lemma_pow2_adds(b, s);
        lemma_pow2_pos(s);
        assert(pow2((b - 1) as nat) * pow2(s) <= bm * pow2(s)) by {
            lemma_mul_inequality(pow2((b - 1) as nat) as int, bm as int, pow2(s) as int);
        };
        assert(bm * pow2(s) < pow2(b) * pow2(s)) by {
            lemma_mul_strict_inequality(bm as int, pow2(b) as int, pow2(s) as int);
        };
    } else {
        let k = (b - 53) as nat;
        let q = bm / pow2(k);
        lemma_pow2_pos(k);
        lemma_pow2_adds(52, k);
        lemma_pow2_adds(53, k);
        assert(q >= pow2(52)) by {
            lemma_div_is_ordered((pow2(52) * pow2(k)) as int, bm as int, pow2(k) as int);
            lemma_div_by_multiple(pow2(52) as int, pow2(k) as int);
        };
        assert(q < pow2(53)) by {
            lemma_multiply_divide_lt(bm as int, pow2(k) as int, pow2(53) as int);
        };
    }
}

// ---------------------------------------------------------------------------
// Executable mirrors.
// ---------------------------------------------------------------------------

/// `2^k` as a `u128`.
pub fn pow2_u128(k: u64) -> (r: u128)
    requires
        k < 128,
    ensures
        r == pow2(k as nat),
{
    let mut i: u64 = 0;
    let mut r: u128 = 1;
    proof {
        lemma2_to64();
    }
    while i < k
        invariant
            i <= k < 128,
            r == pow2(i as nat),
        decreases k - i,
    {
        proof {
            lemma_pow2_unfold((i + 1) as nat);
            assert(pow2((i + 1) as nat) < pow2(128)) by {
                lemma_pow2_strictly_increases((i + 1) as nat, 128);
            };
            assert(pow2(128) == 0x100000000000000000000000000000000) by {
                lemma_pow2_adds(64, 64);
                lemma2_to64_rest();
            };
        }
        r = r * 2;
        i = i + 1;
    }
    r
}

/// The number of significant bits of `x`.
pub fn blen_u128(x: u128) -> (r: u64)
    ensures
        r == blen(x as nat),
        r <= 128,
{
    let mut v: u128 = x;
    let mut b: u64 = 0;
    proof {
        lemma_pow2_adds(64, 64);
        lemma2_to64_rest();
        lemma_blen_le(x as nat, 128);
    }
    while v > 0
        invariant
            blen(x as nat) == b + blen(v as nat),
            blen(v as nat) <= 128 - b,
        decreases v,
    {
        v = v / 2;
        b = b + 1;
    }
    b
}

/// Round `bm * 2^be` to a normalized 53-bit value.
pub fn norm53(bm: u128, be: i64) -> (r: Fp)
    requires
        -490_000_000_000_000_000 <= be <= 490_000_000_000_000_000,
    ensures
        r == fp_round(bm as nat, be as int),
        fp_wf(r),
        bm > 0 ==> be - 52 <= r.e <= be + 76,
{
    proof {
        lemma2_to64();
        lemma2_to64_rest();
    }
    if bm == 0 {
        return Fp { m: 0, e: 0 };
    }
    let b: u64 = blen_u128(bm);
    proof {
        lemma_blen_ge(bm as nat, 0);
        lemma_fp_round_range(bm as nat, be as int);
    }
    if b <= 53 {
        let shift: u128 = pow2_u128(53 - b);
        proof {
            lemma_blen_bounds(bm as nat);
            lemma_pow2_adds(blen(bm as nat), (53 - blen(bm as nat)) as nat);
            lemma_pow2_pos((53 - blen(bm as nat)) as nat);
            lemma_mul_strict_inequality(bm as int, pow2(blen(bm as nat)) as int, pow2((53 - blen(
                bm as nat,
            )) as nat) as int);
            lemma_pow2_strictly_increases(53, 64);
            lemma_mul_nonnegative(bm as int, pow2((53 - blen(bm as nat)) as nat) as int);
        }
        let m: u128 = bm * shift;
        Fp { m: m as u64, e: be - (53 - b as i64) }
    } else {
        let k: u64 = b - 53;
        let p: u128 = pow2_u128(k);
        let half: u128 = pow2_u128(k - 1);
        proof {
            lemma_pow2_pos(k as nat);
            lemma_pow2_pos((k - 1) as nat);
            lemma_blen_bounds(bm as nat);
            lemma_pow2_adds(52, k as nat);
            lemma_pow2_adds(53, k as nat);
        }
        let q: u128 = bm / p;
        let r: u128 = bm % p;
        proof {
            assert(q >= pow2(52)) by {
                lemma_div_is_ordered((pow2(52) * pow2(k as nat)) as int, bm as int, pow2(
                    k as nat) as int);
                lemma_div_by_multiple(pow2(52) as int, pow2(k as nat) as int);
            };
            assert(q < pow2(53)) by {
                lemma_multiply_divide_lt(bm as int, pow2(k as nat) as int, pow2(53) as int);
            };
        }
        let q2: u128 = if r < half {
            q
        } else if r > half {
            q + 1
        } else if q % 2 == 0 {
            q
        } else {
            q + 1
        };
        if q2 == 0x20000000000000 {
            Fp { m: 0x10000000000000, e: be + k as i64 + 1 }
        } else {
            Fp { m: q2 as u64, e: be + k as i64 }
        }
    }
}

/// Runtime value comparison.
pub fn fp_lt(a: &Fp, b: &Fp) -> (r: bool)
    ensures
        r == fp_lt_spec(*a, *b),
{
    if a.m == 0 {
        b.m != 0
    } else if b.m == 0 {
        false
    } else {
        a.e < b.e || (a.e == b.e && a.m < b.m)
    }
}

/// The rounded sum of two doubles.
pub fn fp_add(a: Fp, b: Fp) -> (r: Fp)
    requires
        fp_wf(a),
        fp_wf(b),
        fp_mid(a),
        fp_mid(b),
    ensures
        r == fp_add_spec(a, b),
        fp_wf(r),
        a.m != 0 || b.m != 0 ==> r.m != 0,
        r.m != 0 ==> r.e <= (if a.e >= b.e {
            a.e
        } else {
            b.e
        }) + 2,
        r.m != 0 ==> r.e >= (if a.e <= b.e {
            a.e
        } else {
            b.e
        }) - 52,
        a.m != 0 && b.m != 0 ==> r.e >= (if a.e >= b.e {
            a.e
        } else {
            b.e
        }),
        a.m != 0 && b.m != 0 ==> r.e as int >= (if a.e <= b.e {
            a.e as int
        } else {
            b.e as int
        }) + 1,
{
    proof {
        lemma2_to64();
        lemma2_to64_rest();
    }
    if a.m == 0 {
        let r = norm53(b.m as u128, b.e);
        proof {
            if b.m > 0 {
                lemma_blen_le(b.m as nat, 53);
                lemma_fp_round_range(b.m as nat, b.e as int);
            }
        }
        return r;
    }
    if b.m == 0 {
        let r = norm53(a.m as u128, a.e);
        proof {
            lemma_blen_le(a.m as nat, 53);
            lemma_fp_round_range(a.m as nat, a.e as int);
        }
        return r;
    }
    let hi: Fp = if a.e >= b.e {
        a
    } else {
        b
    };
    let lo: Fp = if a.e >= b.e {
        b
    } else {
        a
    };
    let gap: i64 = hi.e - lo.e;
    if gap <= 75 {
        let p: u128 = pow2_u128(gap as u64);
        proof {
            lemma_pow2_pos(gap as nat);
            lemma_pow2_adds(64, 64);
            lemma_mul_nonnegative(hi.m as int, pow2(gap as nat) as int);
            assert(blen(hi.m as nat) == 53) by {
                lemma_blen_le(hi.m as nat, 53);
                lemma_blen_ge(hi.m as nat, 52);
            };
            if gap >= 53 {
                assert(pow2(53) <= pow2(gap as nat)) by {
                    if gap > 53 {
                        lemma_pow2_strictly_increases(53, gap as nat);
                    }
                };
                lemma_fit_under(hi.m as nat, gap as nat, lo.m as nat);
                assert(pow2((53 + gap) as nat) <= pow2(128)) by {
                    lemma_pow2_adds(53, gap as nat);
                    if 53 + gap < 128 {
                        lemma_pow2_strictly_increases((53 + gap) as nat, 128);
                    }
                };
            } else {
                lemma_fit_wide(hi.m as nat, gap as nat, lo.m as nat, 53);
                assert(pow2((54 + gap) as nat) <= pow2(128)) by {
                    lemma_pow2_strictly_increases((54 + gap) as nat, 128);
                };
            }
        }
        let bsum: u128 = (hi.m as u128) * p + (lo.m as u128);
        let r = norm53(bsum, lo.e);
        proof {
            assert(blen(bsum as nat) <= 54 + gap);
            // the sum is at least the shifted larger operand, and at least
            // one binade above the smaller one
            assert(bsum >= pow2((52 + gap) as nat)) by {
                lemma_pow2_adds(52, gap as nat);
                lemma_mul_inequality(pow2(52) as int, hi.m as int, pow2(gap as nat) as int);
            };
            lemma_blen_ge(bsum as nat, (52 + gap) as nat);
            if gap == 0 {
                assert(bsum >= pow2(53)) by {
                    lemma_pow2_unfold(53);
                    lemma_mul_basics(hi.m as int);
                };
                lemma_blen_ge(bsum as nat, 53);
            }
            lemma_fp_round_range(bsum as nat, lo.e as int);
        }
        r
    } else {
        hi
    }
}

/// The rounded absolute difference of two doubles.
pub fn fp_sub_abs(a0: Fp, b0: Fp) -> (r: Fp)
    requires
        fp_wf(a0),
        fp_wf(b0),
        fp_mid(a0),
        fp_mid(b0),
    ensures
        r == fp_sub_abs_spec(a0, b0),
        fp_wf(r),
        fp_lt_spec(a0, b0) || fp_lt_spec(b0, a0) ==> r.m != 0,
        r.m != 0 ==> r.e <= (if a0.e >= b0.e {
            a0.e
        } else {
            b0.e
        }) + 1,
        r.m != 0 ==> r.e >= (if a0.e <= b0.e {
            a0.e
        } else {
            b0.e
        }) - 52,
{
    proof {
        lemma2_to64();
        lemma2_to64_rest();
    }
    let swap: bool = fp_lt(&a0, &b0);
    let a: Fp = if swap {
        b0
    } else {
        a0
    };
    let b: Fp = if swap {
        a0
    } else {
        b0
    };
    if b.m == 0 {
        let r = norm53(a.m as u128, a.e);
        proof {
            if a.m > 0 {
                lemma_blen_le(a.m as nat, 53);
                lemma_fp_round_range(a.m as nat, a.e as int);
            }
        }
        return r;
    }
    let gap: i64 = a.e - b.e;
    if gap <= 75 {
        let p: u128 = pow2_u128(gap as u64);
        proof {
            lemma_pow2_pos(gap as nat);
            lemma_pow2_adds(53, gap as nat);
            assert(a.m * pow2(gap as nat) < pow2((53 + gap) as nat)) by {
                lemma_mul_strict_inequality(a.m as int, pow2(53) as int, pow2(gap as nat) as int);
            };
            assert(pow2((53 + gap) as nat) <= pow2(128)) by {
                if 53 + gap < 128 {
                    lemma_pow2_strictly_increases((53 + gap) as nat, 128);
                }
            };
            lemma_pow2_adds(64, 64);
            lemma2_to64_rest();
            assert((b.m as u128) <= (a.m as u128) * p && (fp_lt_spec(b, a) ==> (b.m as u128) < (
            a.m as u128) * p)) by {
                if gap == 0 {
                    lemma_mul_basics(a.m as int);
                } else {
                    assert(2 <= pow2(gap as nat)) by {
                        lemma_pow2_unfold(gap as nat);
                        lemma_pow2_pos((gap - 1) as nat);
                    };
                    lemma_mul_left_inequality(a.m as int, 2, pow2(gap as nat) as int);
                    lemma_pow2_adds(52, 1);
                    assert(a.m * 2 >= pow2(52) * 2) by {
                        lemma_mul_inequality(pow2(52) as int, a.m as int, 2);
                    };
                    assert(pow2(52) * 2 == pow2(53));
                    lemma_mul_is_commutative(a.m as int, 2);
                    lemma_mul_is_commutative(a.m as int, pow2(gap as nat) as int);
                }
            };
        }
        let bdiff: u128 = (a.m as u128) * p - (b.m as u128);
        let r = norm53(bdiff, b.e);
        proof {
            lemma_blen_le(bdiff as nat, (53 + gap) as nat);
            if bdiff > 0 {
                lemma_fp_round_range(bdiff as nat, b.e as int);
            }
        }
        r
    } else {
        a
    }
}

/// The rounded product of two doubles.
pub fn fp_mul(a: Fp, b: Fp) -> (r: Fp)
    requires
        fp_wf(a),
        fp_wf(b),
        fp_mid(a),
        fp_mid(b),
    ensures
        r == fp_mul_spec(a, b),
        fp_wf(r),
        a.m != 0 && b.m != 0 ==> r.m != 0,
        r.m != 0 ==> a.e + b.e - 52 <= r.e <= a.e + b.e + 53,
{
    if a.m == 0 || b.m == 0 {
        return Fp { m: 0, e: 0 };
    }
    proof {
        lemma2_to64();
        lemma2_to64_rest();
        lemma_pow2_adds(53, 53);
        lemma_pow2_adds(64, 64);
        assert((a.m as int) * (b.m as int) < pow2(106)) by {
            lemma_mul_strict_upper_bound(a.m as int, pow2(53) as int, b.m as int, pow2(53) as int);
            lemma_mul_inequality(pow2(53) as int - 1, pow2(53) as int, pow2(53) as int - 1);
        };
        lemma_pow2_strictly_increases(106, 128);
        lemma_mul_strictly_positive(a.m as int, b.m as int);
    }
    let bprod: u128 = (a.m as u128) * (b.m as u128);
    let r = norm53(bprod, a.e + b.e);
    proof {
        lemma_blen_le(bprod as nat, 106);
        lemma_fp_round_range(bprod as nat, a.e as int + b.e as int);
        // the exponent can reach `a.e + b.e + 54` only by a carry out of a
        // 106-bit product, and the product is too small to round up that far
        if blen(bprod as nat) == 106 {
            assert(bprod < (pow2(53) - 1) * pow2(53)) by {
                lemma_mul_strict_upper_bound(a.m as int, pow2(53) as int, b.m as int, pow2(
                    53) as int);
                lemma_mul_is_distributive_sub_other_way(pow2(53) as int, pow2(53) as int, 1);
                lemma_mul_strictly_positive(a.m as int, b.m as int);
            };
            assert(bprod as nat / pow2(53) < pow2(53) - 1) by {
                lemma_multiply_divide_lt(bprod as int, pow2(53) as int, pow2(53) as int - 1);
            };
        }
    }
    r
}

/// The fused multiply-add `k * a + bm * 2^be`, rounded once.
pub fn fp_fma(a: Fp, k: u64, bm: u64, be: i64) -> (r: Fp)
    requires
        fp_wf(a),
        fp_mid(a),
        0 < k < 0x400000,
        bm < 0x20000000000000,
        -100_000_000_000_000_000 <= be <= 100_000_000_000_000_000,
    ensures
        r == fp_fma_spec(a, k as nat, bm as nat, be as int),
        fp_wf(r),
        a.m != 0 || bm != 0 ==> r.m != 0,
        r.m != 0 ==> r.e <= (if a.e >= be {
            a.e
        } else {
            be
        }) + 25,
        r.m != 0 ==> r.e as int <= (if a.e + 75 >= be + blen(bm as nat) {
            a.e + 75
        } else {
            be + blen(bm as nat)
        }) + 1 - 52,
        a.m != 0 && r.m != 0 ==> r.e as int >= (if a.e + blen((k * a.m) as nat) <= be + blen(
            bm as nat,
        ) {
            a.e + blen((k * a.m) as nat)
        } else {
            be + blen(bm as nat)
        }) - 53,
        bm != 0 ==> r.e as int >= be + blen(bm as nat) - 53,
        r.m != 0 ==> r.e >= (if a.e <= be {
            a.e
        } else {
            be
        }) - 52,
{
    proof {
        lemma2_to64();
        lemma2_to64_rest();
        lemma_pow2_adds(22, 53);
        lemma_pow2_adds(64, 64);
        if a.m > 0 {
            assert((k as int) * (a.m as int) < pow2(75)) by {
                lemma_mul_strict_upper_bound(k as int, pow2(22) as int, a.m as int, pow2(
                    53) as int);
                lemma_mul_inequality(pow2(22) as int - 1, pow2(22) as int, pow2(53) as int - 1);
            };
            lemma_mul_strictly_positive(k as int, a.m as int);
        } else {
            lemma_mul_by_zero_is_zero(k as int);
        }
    }
    let p: u128 = (k as u128) * (a.m as u128);
    if p == 0 {
        let r = norm53(bm as u128, be);
        proof {
            if bm > 0 {
                lemma_blen_le(bm as nat, 53);
                lemma_fp_round_range(bm as nat, be as int);
            }
        }
        return r;
    }
    if bm == 0 {
        let r = norm53(p, a.e);
        proof {
            assert(blen(0nat) == 0);
            lemma_blen_le(p as nat, 75);
            lemma_fp_round_range(p as nat, a.e as int);
        }
        return r;
    }
    if be >= a.e {
        let gap: i64 = be - a.e;
        let bl: u64 = blen_u128(bm as u128);
        if bl as i64 + gap <= 128 {
            let pg: u128 = pow2_u128(gap as u64);
            proof {
                lemma_pow2_pos(gap as nat);
                lemma_blen_le(bm as nat, 53);
                lemma_blen_ge(bm as nat, 0);
                if gap >= 75 {
                    assert(pow2(75) <= pow2(gap as nat)) by {
                        if gap > 75 {
                            lemma_pow2_strictly_increases(75, gap as nat);
                        }
                    };
                    lemma_fit_under(bm as nat, gap as nat, p as nat);
                    assert(pow2((blen(bm as nat) + gap) as nat) <= pow2(128)) by {
                        if blen(bm as nat) + gap < 128 {
                            lemma_pow2_strictly_increases((blen(bm as nat) + gap) as nat, 128);
                        }
                    };
                } else {
                    lemma_fit_wide(bm as nat, gap as nat, p as nat, 75);
                    assert(blen(bm as nat) + gap <= 127);
                    assert((if blen(bm as nat) + gap >= 75 {
                        blen(bm as nat) + gap
                    } else {
                        75
                    }) + 1 <= 128);
                    assert(pow2(((if blen(bm as nat) + gap >= 75 {
                        blen(bm as nat) + gap
                    } else {
                        75
                    }) + 1) as nat) <= pow2(128)) by {
                        if (if blen(bm as nat) + gap >= 75 {
                            blen(bm as nat) + gap
                        } else {
                            75
                        }) + 1 < 128 {
                            lemma_pow2_strictly_increases(((if blen(bm as nat) + gap >= 75 {
                                blen(bm as nat) + gap
                            } else {
                                75
                            }) + 1) as nat, 128);
                        }
                    };
                }
                lemma_pow2_adds(64, 64);
                lemma_mul_nonnegative(bm as int, pow2(gap as nat) as int);
            }
            let bsum: u128 = (bm as u128) * pg + p;
            let r = norm53(bsum, a.e);
            proof {
                assert(blen(bsum as nat) <= (if blen(bm as nat) + gap >= 75 {
                    blen(bm as nat) + gap
                } else {
                    75
                }) + 1);
                lemma_fp_round_range(bsum as nat, a.e as int);
                lemma_blen_monotone(p as nat, bsum as nat);
                assert(blen(bsum as nat) >= blen(bm as nat) + gap) by {
                    lemma_blen_bounds(bm as nat);
                    lemma_pow2_adds((blen(bm as nat) - 1) as nat, gap as nat);
                    assert(bm * pow2(gap as nat) >= pow2((blen(bm as nat) - 1) as nat) * pow2(
                        gap as nat)) by {
                        lemma_mul_inequality(pow2((blen(bm as nat) - 1) as nat) as int, bm as int,
                            pow2(gap as nat) as int);
                    };
                    lemma_blen_ge(bsum as nat, (blen(bm as nat) - 1 + gap) as nat);
                };
            }
            r
        } else {
            let r = norm53(bm as u128, be);
            proof {
                lemma_blen_le(bm as nat, 53);
                lemma_fp_round_range(bm as nat, be as int);
            }
            r
        }
    } else {
        let gap: i64 = a.e - be;
        let bl: u64 = blen_u128(p);
        if bl as i64 + gap <= 128 {
            let pg: u128 = pow2_u128(gap as u64);
            proof {
                lemma_pow2_pos(gap as nat);
                lemma_blen_le(p as nat, 75);
                assert(p >= a.m) by {
                    lemma_mul_inequality(1, k as int, a.m as int);
                    lemma_mul_basics(a.m as int);
                    lemma_mul_is_commutative(k as int, a.m as int);
                };
                lemma_blen_ge(p as nat, 52);
                if gap >= 53 {
                    assert(pow2(53) <= pow2(gap as nat)) by {
                        if gap > 53 {
                            lemma_pow2_strictly_increases(53, gap as nat);
                        }
                    };
                    lemma_fit_under(p as nat, gap as nat, bm as nat);
                    assert(pow2((blen(p as nat) + gap) as nat) <= pow2(128)) by {
                        if blen(p as nat) + gap < 128 {
                            lemma_pow2_strictly_increases((blen(p as nat) + gap) as nat, 128);
                        }
                    };
                } else {
                    lemma_fit_wide(p as nat, gap as nat, bm as nat, 53);
                    assert(blen(p as nat) + gap >= 53);
                    assert(blen(p as nat) + gap + 1 <= 128);
                    assert(pow2((blen(p as nat) + gap + 1) as nat) <= pow2(128)) by {
                        if blen(p as nat) + gap + 1 < 128 {
                            lemma_pow2_strictly_increases((blen(p as nat) + gap + 1) as nat, 128);
                        }
                    };
                }
                lemma_pow2_adds(64, 64);
                lemma_mul_nonnegative(p as int, pow2(gap as nat) as int);
            }
            let bsum: u128 = p * pg + (bm as u128);
            let r = norm53(bsum, be);
            proof {
                assert(blen(bsum as nat) <= blen(p as nat) + gap + 1);
                lemma_fp_round_range(bsum as nat, be as int);
                lemma_blen_monotone(bm as nat, bsum as nat);
                assert(blen(bsum as nat) >= blen(p as nat) + gap) by {
                    lemma_blen_bounds(p as nat);
                    lemma_pow2_adds((blen(p as nat) - 1) as nat, gap as nat);
                    assert(p * pow2(gap as nat) >= pow2((blen(p as nat) - 1) as nat) * pow2(
                        gap as nat)) by {
                        lemma_mul_inequality(pow2((blen(p as nat) - 1) as nat) as int, p as int,
                            pow2(gap as nat) as int);
                    };
                    lemma_blen_ge(bsum as nat, (blen(p as nat) - 1 + gap) as nat);
                };
            }
            r
        } else {
            let r = norm53(p, a.e);
            proof {
                lemma_blen_le(p as nat, 75);
                lemma_blen_le(bm as nat, 53);
                lemma_fp_round_range(p as nat, a.e as int);
            }
            r
        }
    }
}

/// The integer part of `a`, truncated toward zero.
pub fn fp_trunc(a: &Fp) -> (r: u64)
    requires
        fp_wf(*a),
        a.m != 0 ==> a.e <= 10,
    ensures
        r == fp_trunc_spec(*a),
        a.m != 0 && a.e >= -52 ==> r < pow2((53 + a.e) as nat),
{
    proof {
        lemma2_to64();
        lemma2_to64_rest();
    }
    if a.m == 0 {
        0
    } else if a.e <= -53 {
        0
    } else if a.e >= 0 {
        let p: u128 = pow2_u128(a.e as u64);
        proof {
            assert(pow2(a.e as nat) <= pow2(10)) by {
                if a.e < 10 {
                    lemma_pow2_strictly_increases(a.e as nat, 10);
                }
            };
            assert((a.m as int) * (pow2(a.e as nat) as int) < pow2(63)) by {
                lemma_mul_strict_upper_bound(a.m as int, pow2(53) as int, pow2(a.e as nat) as int,
                    pow2(10) as int + 1);
                lemma_mul_inequality(pow2(53) as int - 1, pow2(53) as int, pow2(10) as int);
                lemma_pow2_adds(53, 10);
                lemma_pow2_pos(a.e as nat);
            };
            lemma_pow2_strictly_increases(63, 64);
            lemma_mul_nonnegative(a.m as int, pow2(a.e as nat) as int);
            lemma_pow2_adds(53, a.e as nat);
            assert(a.m * pow2(a.e as nat) < pow2((53 + a.e) as nat)) by {
                lemma_mul_strict_inequality(a.m as int, pow2(53) as int, pow2(a.e as nat) as int);
            };
        }
        ((a.m as u128) * p) as u64
    } else {
        let p: u128 = pow2_u128((-a.e) as u64);
        proof {
            lemma_pow2_pos((-a.e) as nat);
            lemma_div_nonincreasing(a.m as int, pow2((-a.e) as nat) as int);
            lemma_div_pos_is_pos(a.m as int, pow2((-a.e) as nat) as int);
            if a.e >= -52 {
                lemma_pow2_adds((53 + a.e) as nat, (-a.e) as nat);
                assert((a.m as nat) / pow2((-a.e) as nat) < pow2((53 + a.e) as nat)) by {
                    lemma_multiply_divide_lt(a.m as int, pow2((-a.e) as nat) as int, pow2((53
                        + a.e) as nat) as int);
                };
            }
        }
        ((a.m as u128) / p) as u64
    }
}

/// `n` as a nonnegative double; exact for `n < 2^53`.
pub fn fp_of_u64(n: u64) -> (r: Fp)
    ensures
        r == fp_round(n as nat, 0),
        fp_wf(r),
        n > 0 ==> -52 <= r.e <= 12,
{
    let r = norm53(n as u128, 0);
    proof {
        if n > 0 {
            lemma_pow2_adds(32, 32);
            lemma2_to64_rest();
            lemma_blen_le(n as nat, 64);
            lemma_fp_round_range(n as nat, 0);
        }
    }
    r
}

/// Exact scaling by `2^k`.
pub fn fp_scale(a: Fp, k: i64) -> (r: Fp)
    requires
        fp_wf(a),
        -200 <= k <= 200,
        fp_mid(a),
    ensures
        r == fp_scale_spec(a, k as int),
        fp_wf(r),
{
    if a.m == 0 {
        Fp { m: 0, e: 0 }
    } else {
        Fp { m: a.m, e: a.e + k }
    }
}


/// Rounding a value that is already a normalized double returns it
/// unchanged.
pub proof fn lemma_fp_round_id(b: Fp)
    requires
        fp_wf(b),
        b.m != 0,
    ensures
        fp_round(b.m as nat, b.e as int) == b,
{
    lemma2_to64();
    lemma2_to64_rest();
    lemma_blen_le(b.m as nat, 53);
    lemma_blen_ge(b.m as nat, 52);
    lemma_fp_round_range(b.m as nat, b.e as int);
    lemma_mul_basics(b.m as int);
}

/// Subtracting the truncated integer part of `t` (converted back to a
/// double) leaves the exact fractional part, which lies strictly below one:
/// the subtraction `t - floor(t)` never rounds.
pub proof fn lemma_frac_small(t: Fp)
    requires
        fp_wf(t),
        t.m != 0,
        -400_000_000_000_000_000 <= t.e <= 10,
    ensures
        ({
            let cf = fp_round(fp_trunc_spec(t), 0);
            let fr = fp_sub_abs_spec(t, cf);
            &&& fp_wf(fr)
            &&& fr.m != 0 ==> fr.e <= -53
            &&& fp_trunc_spec(t) == 0 ==> fr == t
            &&& fp_trunc_spec(t) != 0 ==> (fr.m != 0 ==> fr.e >= -105)
        }),
{
    lemma2_to64();
    lemma2_to64_rest();
    let c = fp_trunc_spec(t);
    let cf = fp_round(c, 0);
    let fr = fp_sub_abs_spec(t, cf);
    assert(blen(t.m as nat) == 53) by {
        lemma_blen_le(t.m as nat, 53);
        lemma_blen_ge(t.m as nat, 52);
    };
    if t.e <= -53 {
        // the value lies below one, its integer part is zero
        assert(c == 0);
        assert(cf == fp_zero());
        assert(!fp_lt_spec(t, cf));
        assert(fr == fp_round(t.m as nat, t.e as int));
        lemma_fp_round_range(t.m as nat, t.e as int);
        lemma_fp_round_id(t);
    } else if t.e >= 0 {
        // the value is an integer, the fractional part is zero
        assert(c == t.m * pow2(t.e as nat));
        lemma_pow2_pos(t.e as nat);
        lemma_mul_strictly_positive(t.m as int, pow2(t.e as nat) as int);
        assert(blen(c) == 53 + t.e) by {
            lemma_fit_under(t.m as nat, t.e as nat, 0);
            lemma_blen_le(c, (53 + t.e) as nat);
            lemma_blen_bounds(t.m as nat);
            assert(c >= pow2(52) * pow2(t.e as nat)) by {
                lemma_mul_inequality(pow2(52) as int, t.m as int, pow2(t.e as nat) as int);
            };
            lemma_pow2_adds(52, t.e as nat);
            lemma_blen_ge(c, (52 + t.e) as nat);
        };
        if t.e == 0 {
            lemma_fp_round_range(c, 0);
            lemma_mul_basics(t.m as int);
            assert(cf == t);
        } else {
            let k = (blen(c) - 53) as nat;
            assert(k == t.e);
            lemma_pow2_pos(k);
            lemma_pow2_pos((k - 1) as nat);
            assert(c / pow2(k) == t.m) by {
                lemma_div_multiples_vanish(t.m as int, pow2(k) as int);
                lemma_mul_is_commutative(t.m as int, pow2(k) as int);
            };
            assert(c % pow2(k) == 0) by {
                lemma_mod_multiples_basic(t.m as int, pow2(k) as int);
                lemma_mul_is_commutative(t.m as int, pow2(k) as int);
            };
            assert(cf == t);
        }
        assert(!fp_lt_spec(t, cf));
        assert(fr == fp_round((t.m * pow2(0) - t.m) as nat, t.e as int));
        assert(t.m * pow2(0) == t.m) by {
            lemma_mul_basics(t.m as int);
        };
        assert(fr == fp_zero());
    } else {
        // a proper fractional part: on the grid of t it is exact
        let d = (-t.e) as nat;
        let rem = (t.m as nat) % pow2(d);
        lemma_pow2_pos(d);
        assert(c == (t.m as nat) / pow2(d));
        lemma_fundamental_div_mod(t.m as int, pow2(d) as int);
        lemma_mod_division_less_than_divisor(t.m as int, pow2(d) as int);
        assert(c >= pow2((52 - d) as nat)) by {
            assert(pow2(52) == pow2((52 - d) as nat) * pow2(d)) by {
                lemma_pow2_adds((52 - d) as nat, d);
            };
            lemma_div_is_ordered(pow2(52) as int, t.m as int, pow2(d) as int);
            lemma_div_by_multiple(pow2((52 - d) as nat) as int, pow2(d) as int);
        };
        assert(c < pow2((53 - d) as nat)) by {
            lemma_pow2_adds((53 - d) as nat, d);
            lemma_multiply_divide_lt(t.m as int, pow2(d) as int, pow2((53 - d) as nat) as int);
        };
        lemma_pow2_pos((52 - d) as nat);
        let bl = blen(c);
        assert(bl <= 53 - d) by {
            lemma_blen_le(c, (53 - d) as nat);
        };
        assert(bl >= 53 - d) by {
            lemma_blen_ge(c, (52 - d) as nat);
        };
        lemma_fp_round_range(c, 0);
        assert(cf.m == c * pow2((53 - bl) as nat));
        assert(cf.e as int == bl - 53);
        assert(53 - bl == d);
        assert(cf.m == c * pow2(d));
        assert(cf.m <= t.m) by {
            lemma_mul_is_commutative(c as int, pow2(d) as int);
        };
        assert(cf.e as int == t.e - 0 + (bl - 53) - t.e);
        assert(cf.e <= t.e);
        assert(!fp_lt_spec(t, cf)) by {
            if t.e == cf.e as int {
            }
        };
        let gap = (t.e - cf.e) as nat;
        assert(gap == 0);
        assert(fr == fp_round((t.m * pow2(0) - cf.m) as nat, cf.e as int));
        assert(t.m * pow2(0) == t.m) by {
            lemma_mul_basics(t.m as int);
        };
        assert(t.m - cf.m == rem) by {
            lemma_mul_is_commutative(c as int, pow2(d) as int);
        };
        if rem == 0 {
            assert(fr == fp_zero());
        } else {
            assert(blen(rem) <= d) by {
                lemma_blen_le(rem, d);
            };
            lemma_fp_round_range(rem, cf.e as int);
            assert(fr.e as int <= cf.e + blen(rem) - 52);
            assert(fr.e as int <= (bl - 53) + d - 52);
        }
    }
}


/// The double `1.0`.
pub open spec fn fp_one() -> Fp {
    Fp { m: 0x10000000000000u64, e: -52i64 }
}

/// `min(a, b)` as doubles.
pub open spec fn fp_min_spec(a: Fp, b: Fp) -> Fp {
    if fp_lt_spec(b, a) {
        b
    } else {
        a
    }
}

/// `max(a, b)` as doubles.
pub open spec fn fp_max_spec(a: Fp, b: Fp) -> Fp {
    if fp_lt_spec(a, b) {
        b
    } else {
        a
    }
}

/// Truncation is monotone in the value order.
pub proof fn lemma_trunc_monotone(a: Fp, b: Fp)
    requires
        fp_wf(a),
        fp_wf(b),
        fp_le_spec(a, b),
        a.e <= 10,
        b.e <= 10,
    ensures
        fp_trunc_spec(a) <= fp_trunc_spec(b),
{
    lemma2_to64();
    lemma2_to64_rest();
    if a.m == 0 {
    } else {
        assert(b.m != 0);
        if a.e == b.e {
            if a.e >= 0 {
                lemma_mul_inequality(a.m as int, b.m as int, pow2(a.e as nat) as int);
                lemma_pow2_pos(a.e as nat);
                lemma_mul_is_commutative(a.m as int, pow2(a.e as nat) as int);
                lemma_mul_is_commutative(b.m as int, pow2(a.e as nat) as int);
            } else if a.e <= -53 {
            } else {
                lemma_pow2_pos((-a.e) as nat);
                lemma_div_is_ordered(a.m as int, b.m as int, pow2((-a.e) as nat) as int);
            }
        } else {
            assert(a.e < b.e);
            if a.e <= -53 {
                assert(fp_trunc_spec(a) == 0);
            } else {
                // trunc(a) < 2^(53 + a.e) <= 2^(52 + b.e) <= trunc(b)
                lemma_pow2_pos((-a.e) as nat);
                assert(fp_trunc_spec(a) < pow2((53 + a.e) as nat)) by {
                    if a.e >= 0 {
                        lemma_pow2_adds(53, a.e as nat);
                        lemma_mul_strict_inequality(a.m as int, pow2(53) as int, pow2(
                            a.e as nat) as int);
                        lemma_pow2_pos(a.e as nat);
                    } else {
                        lemma_pow2_adds((53 + a.e) as nat, (-a.e) as nat);
                        lemma_mul_is_commutative(pow2((53 + a.e) as nat) as int, pow2(
                            (-a.e) as nat) as int);
                        lemma_multiply_divide_lt(a.m as int, pow2((-a.e) as nat) as int, pow2((53
                            + a.e) as nat) as int);
                    }
                };
                assert(fp_trunc_spec(b) >= pow2((52 + b.e) as nat)) by {
                    if b.e >= 0 {
                        lemma_pow2_adds(52, b.e as nat);
                        lemma_pow2_pos(b.e as nat);
                        lemma_mul_inequality(pow2(52) as int, b.m as int, pow2(b.e as nat) as int);
                    } else {
                        lemma_pow2_pos((-b.e) as nat);
                        lemma_pow2_adds((52 + b.e) as nat, (-b.e) as nat);
                        lemma_div_is_ordered(pow2(52) as int, b.m as int, pow2((-b.e) as nat) as int);
                        lemma_div_by_multiple(pow2((52 + b.e) as nat) as int, pow2((-b.e) as nat) as int);
                    }
                };
                assert(pow2((53 + a.e) as nat) <= pow2((52 + b.e) as nat)) by {
                    if 53 + a.e < 52 + b.e {
                        lemma_pow2_strictly_increases((53 + a.e) as nat, (52 + b.e) as nat);
                    }
                };
            }
        }
    }
}

/// Adding `1.0` to a value in `[1, 2^52)` advances the integer part by at
/// least one, even though the sum rounds.
pub proof fn lemma_trunc_add_one(a: Fp)
    requires
        fp_wf(a),
        a.m != 0,
        -52 <= a.e <= -1,
    ensures
        fp_trunc_spec(fp_add_spec(a, fp_one())) >= fp_trunc_spec(a) + 1,
{
    lemma2_to64();
    lemma2_to64_rest();
    assert(pow2(128) == 0x100000000000000000000000000000000) by {
        lemma_pow2_adds(64, 64);
        lemma2_to64_rest();
    };
    let one = fp_one();
    let gap = (a.e + 52) as nat;
    let d = (-a.e) as nat;
    let bm = (a.m * pow2(gap) + one.m) as nat;
    assert(fp_add_spec(a, one) == fp_round(bm, -52));
    lemma_pow2_pos(gap);
    lemma_pow2_pos(d);
    lemma_pow2_adds(gap, d);
    // one.m == 2^52 == 2^gap * 2^d, so the sum is (a.m + 2^d) * 2^gap
    assert(pow2(52) == pow2(gap) * pow2(d));
    let q = (a.m + pow2(d)) as nat;
    assert(bm == q * pow2(gap)) by {
        lemma_mul_is_distributive_add_other_way(pow2(gap) as int, a.m as int, pow2(d) as int);
        lemma_mul_is_commutative(pow2(gap) as int, pow2(d) as int);
    };
    let t = fp_trunc_spec(a);
    assert(t == a.m as nat / pow2(d));
    assert(q / pow2(d) == t + 1) by {
        lemma_div_add_one_multiple(a.m as nat, pow2(d));
    };
    lemma_blen_le(a.m as nat, 53);
    lemma_blen_ge(a.m as nat, 52);
    assert(blen(q) == 53 || blen(q) == 54) by {
        lemma_blen_monotone(a.m as nat, q);
        assert(q < pow2(54)) by {
            lemma_pow2_unfold(54);
            assert(pow2(d) <= pow2(52)) by {
                if d < 52 {
                    lemma_pow2_strictly_increases(d, 52);
                }
            };
        };
        lemma_blen_le(q, 54);
    };
    if blen(q) == 53 {
        // the sum is exact
        assert(blen(bm) == 53 + gap) by {
            lemma_fit_under(q, gap, 0);
            lemma_blen_le(bm, (53 + gap) as nat);
            lemma_blen_bounds(q);
            assert(bm >= pow2(52) * pow2(gap)) by {
                lemma_mul_inequality(pow2(52) as int, q as int, pow2(gap) as int);
            };
            lemma_pow2_adds(52, gap);
            lemma_blen_ge(bm, (52 + gap) as nat);
        };
        let r = fp_round(bm, -52);
        assert(bm < pow2(128)) by {
            lemma_blen_bounds(bm);
            if blen(bm) < 128 {
                lemma_pow2_strictly_increases(blen(bm), 128);
            }
        };
        if gap == 0 {
            lemma_fp_round_range(bm, -52);
            assert(r.m == bm * pow2(0));
            lemma_mul_basics(bm as int);
            lemma_mul_basics(q as int);
            assert(bm == q);
            assert(r.m == q);
            assert(r.e == -52 == a.e);
            assert(fp_trunc_spec(r) == q / pow2(d));
        } else {
            let k = gap;
            lemma_pow2_pos((k - 1) as nat);
            assert(bm / pow2(k) == q) by {
                lemma_div_multiples_vanish(q as int, pow2(k) as int);
                lemma_mul_is_commutative(q as int, pow2(k) as int);
            };
            assert(bm % pow2(k) == 0) by {
                lemma_mod_multiples_basic(q as int, pow2(k) as int);
                lemma_mul_is_commutative(q as int, pow2(k) as int);
            };
            assert(q < pow2(53)) by {
                lemma_blen_bounds(q);
            };
            let r2 = fp_round(bm, -52);
            assert(r2.m == q && r2.e as int == -52 + k);
            assert(r2.e == a.e);
            assert(fp_trunc_spec(r2) == q / pow2(d));
        }
    } else {
        // q reached 2^53: the sum rounds once more, at the next binade
        assert(q >= pow2(53)) by {
            lemma_blen_bounds(q);
        };
        assert(d >= 1) by {
            if d == 0 {
                lemma_pow2_unfold(53);
            }
        };
        assert(blen(bm) == 54 + gap) by {
            lemma_fit_under(q, gap, 0);
            lemma_blen_le(bm, (54 + gap) as nat);
            lemma_blen_bounds(q);
            assert(bm >= pow2(53) * pow2(gap)) by {
                lemma_mul_inequality(pow2(53) as int, q as int, pow2(gap) as int);
            };
            lemma_pow2_adds(53, gap);
            lemma_blen_ge(bm, (53 + gap) as nat);
        };
        let k = (gap + 1) as nat;
        lemma_pow2_pos(k);
        lemma_pow2_pos((k - 1) as nat);
        assert(bm / pow2(k) == q / 2 && bm % pow2(k) < pow2(k)) by {
            lemma_pow2_unfold(k);
            lemma_mul_is_commutative(2, pow2(gap) as int);
            lemma_div_denominator(bm as int, pow2(gap) as int, 2);
            lemma_div_multiples_vanish(q as int, pow2(gap) as int);
            lemma_mul_is_commutative(q as int, pow2(gap) as int);
            lemma_mod_bound(bm as int, pow2(k) as int);
        };
        // no second carry: q/2 + 1 stays below 2^53
        assert(q / 2 + 1 < pow2(53)) by {
            lemma_pow2_unfold(53);
            assert(q <= pow2(53) - 1 + pow2(52)) by {
                assert(pow2(d) <= pow2(52)) by {
                    if d < 52 {
                        lemma_pow2_strictly_increases(d, 52);
                    }
                };
            };
            lemma_pow2_unfold(52);
            lemma_div_is_ordered(q as int, (pow2(53) + pow2(52) - 1) as int, 2);
        };
        assert(bm < pow2(128)) by {
            lemma_blen_bounds(bm);
            if blen(bm) < 128 {
                lemma_pow2_strictly_increases(blen(bm), 128);
            }
        };
        let rnd = fp_round(bm, -52);
        assert(rnd.m >= q / 2 && rnd.e as int == a.e + 1);
        // the integer part advances: trunc(rnd) >= q / 2^d == t + 1
        if d == 1 {
            assert(rnd.e == 0);
            assert(fp_trunc_spec(rnd) == rnd.m * pow2(0));
            lemma_mul_basics(rnd.m as int);
            assert(q / 2 == t + 1) by {
                lemma_pow2_unfold(1);
            };
        } else {
            assert(rnd.e as int == -((d - 1) as int));
            assert(fp_trunc_spec(rnd) == (rnd.m as nat) / pow2((d - 1) as nat));
            assert((rnd.m as nat) / pow2((d - 1) as nat) >= (q / 2) as nat / pow2(
                (d - 1) as nat,
            )) by {
                lemma_pow2_pos((d - 1) as nat);
                lemma_div_is_ordered((q / 2) as int, rnd.m as int, pow2((d - 1) as nat) as int);
            };
            assert((q / 2) as nat / pow2((d - 1) as nat) == q / pow2(d)) by {
                lemma_pow2_unfold(d);
                lemma_mul_is_commutative(2, pow2((d - 1) as nat) as int);
                lemma_div_denominator(q as int, 2, pow2((d - 1) as nat) as int);
            };
        }
    }
}

/// Division by a power of two after adding that power advances the quotient
/// by exactly one.
proof fn lemma_div_add_one_multiple(x: nat, p: nat)
    requires
        p > 0,
    ensures
        (x + p) / p == x / p + 1,
{
    lemma_fundamental_div_mod(x as int, p as int);
    lemma_mod_division_less_than_divisor(x as int, p as int);
    assert((x / p + 1) * p == (x / p) * p + p) by {
        lemma_mul_is_distributive_add_other_way(p as int, (x / p) as int, 1);
    };
    lemma_mul_is_commutative((x / p) as int, p as int);
    lemma_mul_is_commutative((x / p + 1) as int, p as int);
    lemma_fundamental_div_mod_converse(
        (x + p) as int,
        p as int,
        (x / p + 1) as int,
        (x % p) as int,
    );
}


/// Adding `1.0` to a value in `[1, 2^52)` raises the exponent by at most
/// one binade.
pub proof fn lemma_add_one_exp(a: Fp)
    requires
        fp_wf(a),
        a.m != 0,
        -52 <= a.e <= -1,
    ensures
        fp_add_spec(a, fp_one()).e as int <= a.e + 1,
{
    lemma2_to64();
    lemma2_to64_rest();
    assert(pow2(128) == 0x100000000000000000000000000000000) by {
        lemma_pow2_adds(64, 64);
        lemma2_to64_rest();
    };
    let one = fp_one();
    let gap = (a.e + 52) as nat;
    let bm = (a.m * pow2(gap) + one.m) as nat;
    assert(fp_add_spec(a, one) == fp_round(bm, -52));
    lemma_pow2_pos(gap);
    lemma_blen_le(a.m as nat, 53);
    assert(a.m * pow2(gap) < pow2((53 + gap) as nat)) by {
        lemma_pow2_adds(53, gap);
        lemma_mul_strict_inequality(a.m as int, pow2(53) as int, pow2(gap) as int);
    };
    assert(pow2(52) <= pow2((52 + gap) as nat)) by {
        if gap > 0 {
            lemma_pow2_strictly_increases(52, (52 + gap) as nat);
        }
    };
    assert(bm < pow2((53 + gap) as nat) + pow2((52 + gap) as nat));
    assert(pow2((53 + gap) as nat) + pow2((52 + gap) as nat) <= pow2((54 + gap) as nat)) by {
        lemma_pow2_unfold((54 + gap) as nat);
        lemma_pow2_unfold((53 + gap) as nat);
    };
    lemma_blen_le(bm, (54 + gap) as nat);
    assert(bm < pow2(128)) by {
        lemma_pow2_strictly_increases((54 + gap) as nat, 128);
    };
    lemma_fp_round_range(bm, -52);
    if blen(bm) == 54 + gap {
        // the top bit advanced; the rounding cannot carry a second time
        let k = (gap + 1) as nat;
        let q = bm / pow2(k);
        lemma_pow2_pos(k);
        assert(bm < 3 * pow2((52 + gap) as nat)) by {
            lemma_pow2_unfold((53 + gap) as nat);
        };
        assert(q < 3 * pow2(51)) by {
            assert(pow2(k) * (3 * pow2(51)) == 3 * pow2((52 + gap) as nat)) by {
                lemma_pow2_adds(51, k);
                lemma_mul_is_associative(3, pow2(51) as int, pow2(k) as int);
                lemma_mul_is_commutative(pow2(k) as int, (3 * pow2(51)) as int);
                lemma_mul_is_commutative(pow2(51) as int, pow2(k) as int);
                lemma_mul_is_associative(3, pow2(k) as int, pow2(51) as int);
            };
            lemma_multiply_divide_lt(bm as int, pow2(k) as int, (3 * pow2(51)) as int);
        };
        assert(3 * pow2(51) < pow2(53)) by {
            lemma_pow2_unfold(53);
            lemma_pow2_unfold(52);
        };
        assert(fp_round(bm, -52).e as int == -52 + k);
    } else {
        assert(fp_round(bm, -52).e as int <= -52 + blen(bm) - 52);
    }
}


/// Adding a term at least 31 binades below leaves the sum in the larger
/// operand's binade, or just above it with a mantissa within `2^21` of the
/// power of two: the value grows by a factor below `1 + 2^-31`.
pub proof fn lemma_add_tiny(hi: Fp, lo: Fp)
    requires
        fp_wf(hi),
        fp_wf(lo),
        hi.m != 0,
        lo.m != 0,
        lo.e + 31 <= hi.e,
    ensures
        fp_add_spec(hi, lo).e <= hi.e || (fp_add_spec(hi, lo).e as int == hi.e + 1 && fp_add_spec(
            hi,
            lo,
        ).m <= 0x10000000200000),
{
    lemma2_to64();
    lemma2_to64_rest();
    assert(pow2(128) == 0x100000000000000000000000000000000) by {
        lemma_pow2_adds(64, 64);
        lemma2_to64_rest();
    };
    let gap = (hi.e - lo.e) as nat;
    if gap > 75 {
    } else {
        let bm = (hi.m * pow2(gap) + lo.m) as nat;
        assert(fp_add_spec(hi, lo) == fp_round(bm, lo.e as int));
        lemma_pow2_pos(gap);
        assert(hi.m * pow2(gap) >= pow2((52 + gap) as nat)) by {
            lemma_pow2_adds(52, gap);
            lemma_mul_inequality(pow2(52) as int, hi.m as int, pow2(gap) as int);
        };
        lemma_blen_ge(bm, (52 + gap) as nat);
        assert(bm < pow2((53 + gap) as nat) + pow2((22 + gap) as nat)) by {
            lemma_pow2_adds(53, gap);
            lemma_mul_strict_inequality(hi.m as int, pow2(53) as int, pow2(gap) as int);
            assert(pow2(53) <= pow2((22 + gap) as nat)) by {
                if 53 < 22 + gap {
                    lemma_pow2_strictly_increases(53, (22 + gap) as nat);
                }
            };
        };
        assert(bm < pow2((54 + gap) as nat)) by {
            lemma_pow2_unfold((54 + gap) as nat);
            assert(pow2((22 + gap) as nat) <= pow2((53 + gap) as nat)) by {
                lemma_pow2_strictly_increases((22 + gap) as nat, (53 + gap) as nat);
            };
        };
        lemma_blen_le(bm, (54 + gap) as nat);
        assert(bm < pow2(128)) by {
            if gap >= 53 {
                assert(hi.m * pow2(gap) <= (pow2(53) - 1) * pow2(gap)) by {
                    lemma_mul_inequality(hi.m as int, pow2(53) as int - 1, pow2(gap) as int);
                };
                assert((pow2(53) - 1) * pow2(gap) == pow2(53) * pow2(gap) - pow2(gap)) by {
                    lemma_mul_is_distributive_sub_other_way(
                        pow2(gap) as int,
                        pow2(53) as int,
                        1,
                    );
                };
                lemma_pow2_adds(53, gap);
                assert(pow2(53) <= pow2(gap)) by {
                    if 53 < gap {
                        lemma_pow2_strictly_increases(53, gap);
                    }
                };
                assert(bm <= pow2((53 + gap) as nat));
                assert(pow2((53 + gap) as nat) <= pow2(128)) by {
                    if 53 + gap < 128 {
                        lemma_pow2_strictly_increases((53 + gap) as nat, 128);
                    }
                };
            } else {
                lemma_pow2_strictly_increases((54 + gap) as nat, 128);
            }
        };
        lemma_fp_round_range(bm, lo.e as int);
        if blen(bm) == 54 + gap {
            // the top bit advanced; the quotient stays within 2^21 of 2^52
            let k = (gap + 1) as nat;
            let q = bm / pow2(k);
            lemma_pow2_pos(k);
            assert(q < pow2(52) + pow2(21)) by {
                assert((pow2(52) + pow2(21)) * pow2(k) == pow2((53 + gap) as nat) + pow2(
                    (22 + gap) as nat,
                )) by {
                    lemma_mul_is_distributive_add_other_way(
                        pow2(k) as int,
                        pow2(52) as int,
                        pow2(21) as int,
                    );
                    lemma_pow2_adds(52, k);
                    lemma_pow2_adds(21, k);
                };
                lemma_mul_is_commutative((pow2(52) + pow2(21)) as int, pow2(k) as int);
                lemma_multiply_divide_lt(bm as int, pow2(k) as int, (pow2(52) + pow2(21)) as int);
            };
            assert(pow2(52) + pow2(21) < pow2(53));
            assert(fp_round(bm, lo.e as int).e as int == lo.e + k);
            assert(fp_round(bm, lo.e as int).m <= pow2(52) + pow2(21));
        } else {
            assert(blen(bm) == 53 + gap);
            assert(fp_round(bm, lo.e as int).e as int <= lo.e + (blen(bm) - 53) + 1);
            if fp_round(bm, lo.e as int).e as int == hi.e + 1 {
                // only a carry to exactly 2^52 reaches the next binade here
                assert(fp_round(bm, lo.e as int).m == pow2(52));
            }
        }
    }
}

} // verus!

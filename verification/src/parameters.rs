//! Scheduling configuration: the weight vector, retention target, flags,
//! the string seed that drives the interval fuzz, and the fuzz itself.
use vstd::prelude::*;
use crate::fp::{Fp, fp_wf, fp_mid, fp_round, fp_trunc_spec, fp_add_spec, fp_sub_abs_spec,
    fp_mul_spec, fp_fma_spec, fp_lt_spec, fp_min_spec, fp_add, fp_sub_abs, fp_mul, fp_fma, fp_lt, fp_trunc,
    fp_of_u64, lemma_blen_ge, lemma_blen_le, lemma_fp_round_range};
use crate::alea::{Prng, alea_wf, alea_seed_spec, alea_next_spec};
use vstd::arithmetic::power2::pow2;

verus! {

/// The decimal value of a digit string.
pub open spec fn dec_val(s: Seq<char>) -> nat
    decreases s.len(),
{
    if s.len() == 0 {
        0
    } else {
        (dec_val(s.drop_last()) * 10 + (s.last() as int - 48)) as nat
    }
}

/// A canonical decimal rendering: digit characters only, with no leading
/// zero except for the single digit of zero itself.
pub open spec fn dec_shape(s: Seq<char>) -> bool {
    &&& s.len() >= 1
    &&& forall|i: int| 0 <= i < s.len() ==> 48 <= (#[trigger] s[i]) as int <= 57
    &&& s.len() > 1 ==> s[0] as int != 48
}

/// The digit character for a value below ten.
pub open spec fn dec_digit(d: nat) -> char {
    if d == 0 {
        '0'
    } else if d == 1 {
        '1'
    } else if d == 2 {
        '2'
    } else if d == 3 {
        '3'
    } else if d == 4 {
        '4'
    } else if d == 5 {
        '5'
    } else if d == 6 {
        '6'
    } else if d == 7 {
        '7'
    } else if d == 8 {
        '8'
    } else {
        '9'
    }
}

fn digit_str(d: u64) -> (r: &'static str)
    requires
        d < 10,
    ensures
        r@ =~= seq![dec_digit(d as nat)],
{
    proof {
        reveal_strlit("0");
        reveal_strlit("1");
        reveal_strlit("2");
        reveal_strlit("3");
        reveal_strlit("4");
        reveal_strlit("5");
        reveal_strlit("6");
        reveal_strlit("7");
        reveal_strlit("8");
        reveal_strlit("9");
    }
    match d {
        0 => "0",
        1 => "1",
        2 => "2",
        3 => "3",
        4 => "4",
        5 => "5",
        6 => "6",
        7 => "7",
        8 => "8",
        _ => "9",
    }
}

/// Render a number in decimal.
pub fn u64_to_string(n: u64) -> (r: String)
    ensures
        dec_val(r@) == n,
        dec_shape(r@),
    decreases n,
{
    if n < 10 {
        let s = String::from_str(digit_str(n));
        proof {
            assert(s@.drop_last() =~= Seq::<char>::empty());
            assert(dec_val(Seq::<char>::empty()) == 0);
            assert('0' as int == 48);
            assert(dec_digit(n as nat) as int == 48 + n);
            assert(s@.len() == 1);
            assert(s@.last() == dec_digit(n as nat));
            assert(s@[0] == dec_digit(n as nat));
        }
        s
    } else {
        proof {
            assert(n / 10 < n);
        }
        let mut s = u64_to_string(n / 10);
        let d: u64 = n % 10;
        let ghost prefix = s@;
        s.append(digit_str(d));
        proof {
            assert(s@.drop_last() =~= prefix);
            assert(s@.last() == dec_digit(d as nat));
            assert(dec_digit(d as nat) as int == 48 + d);
            assert(forall|i: int| 0 <= i < prefix.len() ==> s@[i] == prefix[i]);
            assert(s@[0] as int != 48) by {
                assert(n / 10 >= 1);
                if prefix.len() == 1 {
                    assert(prefix.drop_last() =~= Seq::<char>::empty());
                    assert(dec_val(Seq::<char>::empty()) == 0);
                    assert(dec_val(prefix) == (prefix.last() as int - 48));
                    assert(prefix.last() == prefix[0]);
                }
            };
        }
        s
    }
}

/// Relies on `std::time::SystemTime::now`: the current wall-clock time as
/// milliseconds since the Unix epoch, negative for a clock set before it.
/// Total on every clock state: a pre-epoch time comes back through the
/// error arm, and an out-of-range count saturates.  Nothing is assumed of
/// the value.
#[verifier::external_body]
fn now_millis() -> i64 {
    match std::time::SystemTime::now().duration_since(std::time::UNIX_EPOCH) {
        Ok(since) => i64::try_from(since.as_millis()).unwrap_or(i64::MAX),
        Err(before) => i64::try_from(before.duration().as_millis()).map_or(i64::MIN, |v| -v),
    }
}

/// The current time in milliseconds, clamped into the range the scheduling
/// arithmetic accepts (about thirty thousand years around the epoch).
pub fn now_millis_clamped() -> (r: i64)
    ensures
        -1_000_000_000_000_000 <= r <= 1_000_000_000_000_000,
{
    let t = now_millis();
    if t > 1_000_000_000_000_000 {
        1_000_000_000_000_000
    } else if t < -1_000_000_000_000_000 {
        -1_000_000_000_000_000
    } else {
        t
    }
}

/// A fuzz seed: an explicit string, or the marker for a time-derived one.
#[derive(Debug, Clone)]
pub enum Seed {
    String(String),
    Default,
}

impl Seed {
    /// The characters the seed feeds to the generator.
    pub open spec fn str_spec(&self) -> Seq<char> {
        match self {
            Seed::String(s) => s@,
            Seed::Default => Seq::<char>::empty(),
        }
    }

    /// An explicit seed from a nonempty string; an empty string falls back
    /// to the current time in milliseconds, rendered in decimal.
    pub fn new(value: String) -> (r: Seed)
        ensures
            r is String,
            value@.len() > 0 ==> r.str_spec() == value@,
            value@.len() == 0 ==> dec_shape(r.str_spec()),
            r.str_spec().len() >= 1,
    {
        if value.as_str().unicode_len() == 0 {
            let now = now_millis();
            let n: u64 = if now >= 0 {
                now as u64
            } else {
                0
            };
            Seed::String(u64_to_string(n))
        } else {
            Seed::String(value)
        }
    }

    /// The seed characters; the time marker reads as the empty string.
    pub fn inner_str(&self) -> (r: &str)
        ensures
            r@ == self.str_spec(),
    {
        match self {
            Seed::String(s) => s.as_str(),
            Seed::Default => {
                proof {
                    reveal_strlit("");
                    assert(""@ =~= Seq::<char>::empty());
                }
                ""
            },
        }
    }
}

impl Default for Seed {
    /// The default seed: derived from the current time.
    fn default() -> (r: Seed)
        ensures
            r is String,
    {
        Seed::new(String::new())
    }
}


/// The scheduler configuration.  The retention target, the weights and the
/// two derived constants are doubles held as their raw IEEE 754 bits: the
/// verified core never computes with them, it hands them to the memory-model
/// formulas and back unchanged.
#[derive(Debug, Clone)]
pub struct Parameters {
    pub request_retention: u64,
    pub maximum_interval: i32,
    pub w: Vec<u64>,
    pub decay: u64,
    pub factor: u64,
    pub enable_short_term: bool,
    pub enable_fuzz: bool,
    pub seed: Seed,
}

/// A configuration rejected at construction.
#[derive(Debug, Clone, Copy, PartialEq, Eq, Structural)]
pub enum ParametersError {
    WrongWeightCount,
    RetentionOutOfRange,
}

/// The default weight vector (19 weights), as IEEE 754 bits.
pub open spec fn default_weights_spec() -> Seq<u64> {
    seq![
        0x3fdadc5d63886595u64,
        0x3ff2fd8adab9f55au64,
        0x40085460aa64c2f8u64,
        0x402e7cfaacd9e83eu64,
        0x401c92d77318fc50u64,
        0x3fe4b9f559b3d07du64,
        0x3ff002de00d1b717u64,
        0x3fb141205bc01a37u64,
        0x3ffa8e219652bd3cu64,
        0x3fc5e9e1b089a027u64,
        0x3ff1e28240b78034u64,
        0x40002e147ae147aeu64,
        0x3fb72474538ef34du64,
        0x3fd35c28f5c28f5cu64,
        0x4000f8a0902de00du64,
        0x3fcff972474538efu64,
        0x400792a305532618u64,
        0x3fdf4d6a161e4f76u64,
        0x3fe4b295e9e1b08au64,
    ]
}

impl Parameters {
    /// A retention target lies in `(0, 1)` exactly when its bits lie
    /// strictly between the bits of `0.0` and the bits of `1.0` (positive
    /// doubles order as their bit patterns do).
    pub open spec fn retention_valid_spec(bits: u64) -> bool {
        0 < bits < 0x3ff0000000000000
    }

    /// Fail fast on a bad configuration: the weight vector must hold 17 or
    /// 19 weights and the retention target must lie in `(0, 1)`.
    pub fn validate(&self) -> (r: Result<(), ParametersError>)
        ensures
            r is Ok <==> (self.w@.len() == 17 || self.w@.len() == 19)
                && Self::retention_valid_spec(self.request_retention),
            r is Err && !((self.w@.len() == 17 || self.w@.len() == 19)) ==> r
                == Result::<(), ParametersError>::Err(ParametersError::WrongWeightCount),
            r is Err && (self.w@.len() == 17 || self.w@.len() == 19) ==> r
                == Result::<(), ParametersError>::Err(ParametersError::RetentionOutOfRange),
    {
        if !(self.w.len() == 17 || self.w.len() == 19) {
            Err(ParametersError::WrongWeightCount)
        } else if !(0 < self.request_retention && self.request_retention < 0x3ff0000000000000) {
            Err(ParametersError::RetentionOutOfRange)
        } else {
            Ok(())
        }
    }
}

impl Default for Parameters {
    /// The stock configuration: retention 0.9, a 36500-day cap, the default
    /// 19-weight vector, short-term steps on, fuzz off.
    fn default() -> (r: Parameters)
        ensures
            r.request_retention == 0x3feccccccccccccdu64,
            r.maximum_interval == 36500,
            r.w@ == default_weights_spec(),
            r.decay == 0xbfe0000000000000u64,
            r.factor == 0x3fce06522c3f35bau64,
            r.enable_short_term == true,
            r.enable_fuzz == false,
            r.seed is String,
    {
        let w: Vec<u64> = vec![
            0x3fdadc5d63886595u64,
            0x3ff2fd8adab9f55au64,
            0x40085460aa64c2f8u64,
            0x402e7cfaacd9e83eu64,
            0x401c92d77318fc50u64,
            0x3fe4b9f559b3d07du64,
            0x3ff002de00d1b717u64,
            0x3fb141205bc01a37u64,
            0x3ffa8e219652bd3cu64,
            0x3fc5e9e1b089a027u64,
            0x3ff1e28240b78034u64,
            0x40002e147ae147aeu64,
            0x3fb72474538ef34du64,
            0x3fd35c28f5c28f5cu64,
            0x4000f8a0902de00du64,
            0x3fcff972474538efu64,
            0x400792a305532618u64,
            0x3fdf4d6a161e4f76u64,
            0x3fe4b295e9e1b08au64,
        ];
        proof {
            assert(w@ =~= default_weights_spec());
        }
        Parameters {
            request_retention: 0x3feccccccccccccdu64,
            maximum_interval: 36500,
            w,
            decay: 0xbfe0000000000000u64,
            factor: 0x3fce06522c3f35bau64,
            enable_short_term: true,
            enable_fuzz: false,
            seed: Seed::default(),
        }
    }
}

// ---------------------------------------------------------------------------
// The fuzz window.
// ---------------------------------------------------------------------------

/// Rounding half away from zero, on a nonnegative double: the integer part,
/// plus one when the fractional part reaches one half.
pub open spec fn round_half_spec(a: Fp) -> nat {
    let t = fp_trunc_spec(a);
    let fr = fp_sub_abs_spec(a, fp_round(t, 0));
    if fp_lt_spec(fr, Fp { m: 0x10000000000000u64, e: -53i64 }) {
        t
    } else {
        t + 1
    }
}

/// One additive fuzz band: widen `delta` by `factor` times the part of the
/// interval that falls between `start` and `end`.
pub open spec fn fuzz_band_spec(delta: Fp, ivl: Fp, start: Fp, end: Fp, factor: Fp) -> Fp {
    let x = fp_min_spec(ivl, end);
    if fp_lt_spec(start, x) {
        fp_add_spec(delta, fp_mul_spec(factor, fp_sub_abs_spec(x, start)))
    } else {
        delta
    }
}

/// The half-width of the fuzz window: one day, plus 15% of the interval
/// part in (2.5, 7], 10% of the part in (7, 20], and 5% of the part above.
pub open spec fn fuzz_delta_spec(ivl: Fp) -> Fp {
    let d1 = fuzz_band_spec(
        Fp { m: 0x10000000000000u64, e: -52i64 },
        ivl,
        Fp { m: 5629499534213120u64, e: -51i64 },
        Fp { m: 7881299347898368u64, e: -50i64 },
        Fp { m: 5404319552844595u64, e: -55i64 },
    );
    let d2 = fuzz_band_spec(
        d1,
        ivl,
        Fp { m: 7881299347898368u64, e: -50i64 },
        Fp { m: 5629499534213120u64, e: -48i64 },
        Fp { m: 7205759403792794u64, e: -56i64 },
    );
    fuzz_band_spec(
        d2,
        ivl,
        Fp { m: 5629499534213120u64, e: -48i64 },
        Fp { m: 9007199254740991u64, e: 971i64 },
        Fp { m: 7205759403792794u64, e: -57i64 },
    )
}

/// The fuzz window around an interval.
#[verifier::opaque]
pub open spec fn fuzz_range_spec(interval: i64, elapsed_days: i64, maximum_interval: i32) -> (
    i64,
    i64,
) {
    let ivl = fp_round(interval as nat, 0);
    let delta = fuzz_delta_spec(ivl);
    let i = if maximum_interval <= interval {
        fp_round(maximum_interval as nat, 0)
    } else {
        ivl
    };
    let rdown = if fp_lt_spec(i, delta) {
        0
    } else {
        round_half_spec(fp_sub_abs_spec(i, delta)) as int
    };
    let mn0 = if rdown >= 2 {
        rdown
    } else {
        2
    };
    let rup = round_half_spec(fp_add_spec(i, delta)) as int;
    let mx = if rup < maximum_interval as int {
        rup
    } else {
        maximum_interval as int
    };
    let ii = if interval < maximum_interval as int {
        interval as int
    } else {
        maximum_interval as int
    };
    let mn1 = if ii > elapsed_days && elapsed_days + 1 > mn0 {
        elapsed_days + 1
    } else {
        mn0
    };
    let mn = if mx < mn1 {
        mx
    } else {
        mn1
    };
    ((mn) as i64, (mx) as i64)
}

/// Rounding half away from zero, executable.
fn fp_round_half(a: Fp) -> (r: u64)
    requires
        fp_wf(a),
        fp_mid(a),
        a.m != 0 ==> a.e <= 10,
    ensures
        r == round_half_spec(a),
        a.m != 0 && a.e >= -52 ==> r <= pow2((53 + a.e) as nat),
        a.m == 0 || a.e < -52 ==> r <= 1,
{
    proof {
        vstd::arithmetic::power2::lemma2_to64();
        vstd::arithmetic::power2::lemma2_to64_rest();
    }
    let t = fp_trunc(&a);
    let tf = fp_of_u64(t);
    let fr = fp_sub_abs(a, tf);
    let half = Fp { m: 0x10000000000000, e: -53 };
    proof {
        assert(t < 0x8000000000000000u64) by {
            if a.m != 0 && a.e >= -52 {
                assert(pow2((53 + a.e) as nat) <= pow2(63)) by {
                    if 53 + a.e < 63 {
                        vstd::arithmetic::power2::lemma_pow2_strictly_increases(
                            (53 + a.e) as nat,
                            63,
                        );
                    }
                };
            }
        };
    }
    if fp_lt(&fr, &half) {
        t
    } else {
        t + 1
    }
}

/// The fuzz window `[min, max]` around an interval, clamped to at least two
/// days, at most the interval cap, and past the days already elapsed.
/// The half-width of the fuzz window, executable.
#[verifier::rlimit(60)]
fn fuzz_delta(ivl: Fp) -> (r: Fp)
    requires
        fp_wf(ivl),
        ivl.m != 0,
        -52 <= ivl.e <= -22,
    ensures
        r == fuzz_delta_spec(ivl),
        fp_wf(r),
        r.m != 0,
        -52 <= r.e <= -17,
{
    proof {
        vstd::arithmetic::power2::lemma2_to64();
        vstd::arithmetic::power2::lemma2_to64_rest();
    }
    let one = Fp { m: 0x10000000000000, e: -52 };
    let b25 = Fp { m: 5629499534213120, e: -51 };
    let b7 = Fp { m: 7881299347898368, e: -50 };
    let b20 = Fp { m: 5629499534213120, e: -48 };
    let bmax = Fp { m: 9007199254740991, e: 971 };
    let f15 = Fp { m: 5404319552844595, e: -55 };
    let f10 = Fp { m: 7205759403792794, e: -56 };
    let f05 = Fp { m: 7205759403792794, e: -57 };
    let mut delta = one;
    let x1 = if fp_lt(&b7, &ivl) {
        b7
    } else {
        ivl
    };
    if fp_lt(&b25, &x1) {
        delta = fp_add(delta, fp_mul(f15, fp_sub_abs(x1, b25)));
    }
    proof {
        assert(delta.m != 0 && delta.e <= -21);
    }
    let x2 = if fp_lt(&b20, &ivl) {
        b20
    } else {
        ivl
    };
    if fp_lt(&b7, &x2) {
        delta = fp_add(delta, fp_mul(f10, fp_sub_abs(x2, b7)));
    }
    proof {
        assert(delta.m != 0 && delta.e <= -19);
    }
    let x3 = if fp_lt(&bmax, &ivl) {
        bmax
    } else {
        ivl
    };
    if fp_lt(&b20, &x3) {
        delta = fp_add(delta, fp_mul(f05, fp_sub_abs(x3, b20)));
    }
    proof {
        assert(delta.m != 0 && delta.e <= -17);
    }
    delta
}

/// The raw rounded window edges `round(i - delta)` and `round(i + delta)`.
#[verifier::rlimit(60)]
fn fuzz_bounds(i: Fp, delta: Fp) -> (r: (u64, u64))
    requires
        fp_wf(i),
        i.m != 0,
        -52 <= i.e <= -22,
        fp_wf(delta),
        delta.m != 0,
        -52 <= delta.e <= -17,
    ensures
        r.0 as int == (if fp_lt_spec(i, delta) {
            0
        } else {
            round_half_spec(fp_sub_abs_spec(i, delta)) as int
        }),
        r.1 == round_half_spec(fp_add_spec(i, delta)),
        r.0 <= 0x100000000,
        2 <= r.1 <= 0x4000000000,
{
    proof {
        vstd::arithmetic::power2::lemma2_to64();
        vstd::arithmetic::power2::lemma2_to64_rest();
    }
    let rdown: u64 = if fp_lt(&i, &delta) {
        0u64
    } else {
        let d = fp_sub_abs(i, delta);
        let rd = fp_round_half(d);
        proof {
            if d.m != 0 && d.e >= -52 {
                assert(pow2((53 + d.e) as nat) <= 0x100000000u64) by {
                    if 53 + d.e < 32 {
                        vstd::arithmetic::power2::lemma_pow2_strictly_increases(
                            (53 + d.e) as nat,
                            32,
                        );
                    }
                };
            }
        }
        rd
    };
    let up = fp_add(i, delta);
    let rup = fp_round_half(up);
    proof {
        if up.m != 0 && up.e >= -52 {
            assert(pow2((53 + up.e) as nat) <= 0x4000000000u64) by {
                if 53 + up.e < 38 {
                    vstd::arithmetic::power2::lemma_pow2_strictly_increases((53 + up.e) as nat, 38);
                }
            };
        }
        // both addends are at least one, so the sum is at least two and
        // its integer part cannot round below two
        assert(up.m != 0 && up.e >= -51);
        assert(fp_trunc_spec(up) >= 2) by {
            vstd::arithmetic::power2::lemma_pow2_pos((-up.e) as nat);
            vstd::arithmetic::power2::lemma_pow2_adds((52 + up.e) as nat, (-up.e) as nat);
            vstd::arithmetic::div_mod::lemma_div_is_ordered(
                pow2(52) as int,
                up.m as int,
                pow2((-up.e) as nat) as int,
            );
            vstd::arithmetic::div_mod::lemma_div_by_multiple(
                pow2((52 + up.e) as nat) as int,
                pow2((-up.e) as nat) as int,
            );
            assert(pow2((52 + up.e) as nat) >= 2) by {
                if 52 + up.e > 1 {
                    vstd::arithmetic::power2::lemma_pow2_strictly_increases(
                        1,
                        (52 + up.e) as nat,
                    );
                }
            };
        };
    }
    (rdown, rup)
}

#[verifier::rlimit(100)]
#[verifier::spinoff_prover]
pub fn get_fuzz_range(interval: i64, elapsed_days: i64, maximum_interval: i32) -> (r: (i64, i64))
    requires
        1 <= interval < 0x80000000,
        -0x1000000000000 <= elapsed_days <= 0x1000000000000,
        1 <= maximum_interval,
    ensures
        r == fuzz_range_spec(interval, elapsed_days, maximum_interval),
        1 <= r.0 <= r.1 <= maximum_interval,
{
    proof {
        reveal(fuzz_range_spec);
        vstd::arithmetic::power2::lemma2_to64();
        vstd::arithmetic::power2::lemma2_to64_rest();
        lemma_blen_le(interval as nat, 31);
        lemma_fp_round_range(interval as nat, 0);
        lemma_blen_le(maximum_interval as nat, 31);
        lemma_fp_round_range(maximum_interval as nat, 0);
    }
    let ivl = fp_of_u64(interval as u64);
    let delta = fuzz_delta(ivl);
    let maxf = fp_of_u64(maximum_interval as u64);
    let i = if maximum_interval as i64 <= interval {
        maxf
    } else {
        ivl
    };
    proof {
        assert(delta.m != 0);
        assert(delta.e <= 0);
        assert(i.m != 0 ==> i.e <= 10);
    }
    let bounds = fuzz_bounds(i, delta);
    let rdown: u64 = bounds.0;
    let rup: u64 = bounds.1;
    let mn0: i64 = if rdown >= 2 {
        rdown as i64
    } else {
        2
    };
    let mx: i64 = if (rup as i64) < maximum_interval as i64 {
        rup as i64
    } else {
        maximum_interval as i64
    };
    let ii: i64 = if interval < maximum_interval as i64 {
        interval
    } else {
        maximum_interval as i64
    };
    let mut mn: i64 = mn0;
    if ii > elapsed_days && elapsed_days + 1 > mn {
        mn = elapsed_days + 1;
    }
    if mx < mn {
        mn = mx;
    }
    (mn, mx)
}

/// The fuzzed interval: the window scaled by one unit draw.  The result is
/// a fractional double; callers truncate it to whole days.
#[verifier::opaque]
pub open spec fn apply_fuzz_spec(
    seed: Seq<char>,
    enable_fuzz: bool,
    interval: i64,
    elapsed_days: i64,
    maximum_interval: i32,
) -> Fp {
    if !enable_fuzz || interval < 3 {
        fp_round(interval as nat, 0)
    } else {
        let g1 = alea_next_spec(alea_seed_spec(seed));
        let g2 = alea_next_spec(g1);
        let x = fp_trunc_spec(crate::fp::fp_scale_spec(g1.s2, 21));
        let factor = fp_add_spec(crate::fp::fp_scale_spec(fp_round(x, 0), -53), g2.s2);
        let (mn, mx) = fuzz_range_spec(interval, elapsed_days, maximum_interval);
        fp_fma_spec(factor, (mx - mn + 1) as nat, mn as nat, 0)
    }
}

impl Parameters {
    /// Perturb an interval inside its fuzz window, deterministically from
    /// the seed: `min + draw * (max - min + 1)`, as doubles.  Intervals
    /// below 2.5 days are returned unchanged.  The contract records that
    /// the result is at least one whole day, which keeps the enforced
    /// interval ordering unconditional downstream.
    pub fn apply_fuzz(&self, interval: i64, elapsed_days: i64) -> (r: Fp)
        requires
            1 <= interval < 0x80000000,
            -0x1000000000000 <= elapsed_days <= 0x1000000000000,
            1 <= self.maximum_interval <= 2_000_000,
            self.seed.str_spec().len() <= 0x100000000000,
        ensures
            r == apply_fuzz_spec(
                self.seed.str_spec(),
                self.enable_fuzz,
                interval,
                elapsed_days,
                self.maximum_interval,
            ),
            fp_wf(r),
            fp_mid(r),
            r.m != 0 ==> r.e <= -20,
            r.m != 0 && r.e >= -52,
    {
        proof {
            reveal(apply_fuzz_spec);
            vstd::arithmetic::power2::lemma2_to64();
            vstd::arithmetic::power2::lemma2_to64_rest();
        }
        if !self.enable_fuzz || interval < 3 {
            let r = fp_of_u64(interval as u64);
            proof {
                lemma_blen_le(interval as nat, 31);
                lemma_fp_round_range(interval as nat, 0);
            }
            return r;
        }
        let mut generator = Prng::new(&self.seed);
        let fuzz_factor = generator.double();
        let rng = get_fuzz_range(interval, elapsed_days, self.maximum_interval);
        let mn = rng.0;
        let mx = rng.1;
        proof {
            vstd::arithmetic::power2::lemma2_to64();
            vstd::arithmetic::power2::lemma2_to64_rest();
            lemma_blen_le((mn as nat), 21);
        }
        let r = fp_fma(fuzz_factor, (mx - mn + 1) as u64, mn as u64, 0);
        proof {
            if r.m != 0 {
                assert(r.e <= -23);
            }
            // the window minimum is at least one, so the result is too
            lemma_blen_ge(mn as nat, 0);
        }
        r
    }
}


/// Two configurations that agree on everything the scheduling core reads:
/// equal settings, equal weight views, and the same seed characters.
pub open spec fn params_compat(a: Parameters, b: Parameters) -> bool {
    &&& a.request_retention == b.request_retention
    &&& a.maximum_interval == b.maximum_interval
    &&& a.w@ == b.w@
    &&& a.decay == b.decay
    &&& a.factor == b.factor
    &&& a.enable_short_term == b.enable_short_term
    &&& a.enable_fuzz == b.enable_fuzz
    &&& a.seed.str_spec() == b.seed.str_spec()
}

impl Parameters {
    /// An equivalent copy of the configuration.
    pub fn duplicate(&self) -> (r: Parameters)
        ensures
            params_compat(*self, r),
            params_compat(r, *self),
    {
        let w2 = self.w.clone();
        proof {
            assert(w2@ =~= self.w@);
        }
        let seed2 = match &self.seed {
            Seed::String(s) => Seed::String(String::from_str(s.as_str())),
            Seed::Default => Seed::Default,
        };
        Parameters {
            request_retention: self.request_retention,
            maximum_interval: self.maximum_interval,
            w: w2,
            decay: self.decay,
            factor: self.factor,
            enable_short_term: self.enable_short_term,
            enable_fuzz: self.enable_fuzz,
            seed: seed2,
        }
    }
}

} // verus!

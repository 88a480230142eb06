//! The Alea pseudo-random generator.
//!
//! A deterministic generator seeded from a string: a multiplicative hash
//! ("mash") folds the seed characters into three fractional state values,
//! and each draw runs a three-state additive generator with carry.  All
//! arithmetic is the exact double-precision arithmetic of [`crate::fp`], so
//! the same seed yields the same sequence on every machine, and the state
//! can be exported and imported to resume a sequence exactly.
use vstd::prelude::*;
use vstd::arithmetic::power2::pow2;
use crate::fp::{Fp, fp_wf, fp_mid, fp_zero, fp_round, fp_trunc_spec, fp_scale_spec, fp_add_spec,
    fp_sub_abs_spec, fp_mul_spec, fp_fma_spec, fp_lt_spec, fp_add, fp_sub_abs, fp_mul, fp_fma,
    fp_lt, fp_trunc, fp_of_u64, fp_scale, lemma_blen_le, lemma_blen_ge, lemma_fp_round_range,
    lemma_frac_small, lemma_fp_round_id};
use crate::parameters::Seed;

verus! {

/// The exported generator state: three fractional values and the carry.
#[derive(Debug, Clone, Copy, PartialEq, Eq, Structural)]
pub struct AleaState {
    pub c: u64,
    pub s0: Fp,
    pub s1: Fp,
    pub s2: Fp,
}

/// The generator itself.
#[derive(Debug, Clone, Copy)]
pub struct Alea {
    pub c: u64,
    pub s0: Fp,
    pub s1: Fp,
    pub s2: Fp,
}

/// A state value: a well-formed double below sixteen, with a bounded drift
/// downward.  The reachable values lie in `[0, 1)`, but the seeding
/// arithmetic only admits this coarser bound without evaluating the hash
/// constants; every drawn value is separately guaranteed below one.
pub open spec fn alea_val_wf(s: Fp) -> bool {
    &&& fp_wf(s)
    &&& s.e >= -190_000_000_000_000_000
    &&& s.m != 0 ==> s.e <= -49
}

/// The generator invariant: a small carry and three state values.
pub open spec fn alea_wf(a: Alea) -> bool {
    &&& a.c < 0x10000000
    &&& alea_val_wf(a.s0)
    &&& alea_val_wf(a.s1)
    &&& alea_val_wf(a.s2)
}

/// The invariant on an exported or imported state.
pub open spec fn alea_state_wf(st: AleaState) -> bool {
    &&& st.c < 0x10000000
    &&& alea_val_wf(st.s0)
    &&& alea_val_wf(st.s1)
    &&& alea_val_wf(st.s2)
}

/// The mash multiplier, the double `0.02519603282416938`.
pub open spec fn mash_c() -> Fp {
    Fp { m: 7262262018441216u64, e: -58i64 }
}

/// The double `1.0`.
pub open spec fn fp_one() -> Fp {
    Fp { m: 0x10000000000000u64, e: -52i64 }
}

/// The initial mash accumulator, the integer `0xefc8249d` as a double.
pub open spec fn mash_init() -> Fp {
    fp_round(0xefc8249d, 0)
}

/// One mash round: fold one character code into the accumulator.  Each line
/// mirrors one double-precision operation of the hash.
pub open spec fn mash_step_spec(n: Fp, code: u32) -> Fp {
    let nf = fp_add_spec(n, fp_round(code as nat, 0));
    let h1 = fp_mul_spec(mash_c(), nf);
    let n1 = fp_round(fp_trunc_spec(h1), 0);
    let h2 = fp_sub_abs_spec(h1, n1);
    let h3 = fp_mul_spec(h2, n1);
    let n2 = fp_round(fp_trunc_spec(h3), 0);
    let h4 = fp_sub_abs_spec(h3, n2);
    fp_add_spec(n2, fp_scale_spec(h4, 32))
}

/// Folding a whole string through the mash.
pub open spec fn mash_fold(n: Fp, s: Seq<char>) -> Fp
    decreases s.len(),
{
    if s.len() == 0 {
        n
    } else {
        mash_fold(mash_step_spec(n, s[0] as u32), s.subrange(1, s.len() as int))
    }
}

/// Mixing one mash value into a blank-seeded state value: the difference,
/// shifted up by one when it would go below zero.  The blank-seeded values
/// exceed 0.15 and a mash value stays below 1.125, so the shifted
/// difference always lands in `[0, 1)`; the absolute-difference rendering
/// below is exact on every reachable input.
pub open spec fn seed_mix_spec(s: Fp, m: Fp) -> Fp {
    if fp_lt_spec(s, m) {
        fp_sub_abs_spec(fp_one(), fp_sub_abs_spec(m, s))
    } else {
        fp_sub_abs_spec(s, m)
    }
}

/// The generator produced by seeding from the given characters.
#[verifier::opaque]
pub open spec fn alea_seed_spec(chars: Seq<char>) -> Alea {
    let n1 = mash_fold(mash_init(), seq![' ']);
    let n2 = mash_fold(n1, seq![' ']);
    let n3 = mash_fold(n2, seq![' ']);
    let n4 = mash_fold(n3, chars);
    let n5 = mash_fold(n4, chars);
    let n6 = mash_fold(n5, chars);
    Alea {
        c: 1,
        s0: seed_mix_spec(fp_scale_spec(n1, -32), fp_scale_spec(n4, -32)),
        s1: seed_mix_spec(fp_scale_spec(n2, -32), fp_scale_spec(n5, -32)),
        s2: seed_mix_spec(fp_scale_spec(n3, -32), fp_scale_spec(n6, -32)),
    }
}

/// One draw: `t = 2091639 * s0 + c * 2^-32`, rotate the state values, keep
/// the integer part of `t` as the carry and its fraction as the new value.
pub open spec fn alea_next_spec(a: Alea) -> Alea {
    let t = fp_fma_spec(a.s0, 2091639, a.c as nat, -32);
    let c2 = fp_trunc_spec(t);
    let s2 = fp_sub_abs_spec(t, fp_round(c2, 0));
    Alea { c: c2 as u64, s0: a.s1, s1: a.s2, s2: s2 }
}

/// The next `n` unit draws of the generator, as exact double values.
pub open spec fn alea_draws(a: Alea, n: nat) -> Seq<Fp>
    decreases n,
{
    if n == 0 {
        Seq::empty()
    } else {
        seq![alea_next_spec(a).s2] + alea_draws(alea_next_spec(a), (n - 1) as nat)
    }
}

/// The internal accumulator invariant of the mash.
pub open spec fn mash_n_wf(n: Fp) -> bool {
    &&& fp_wf(n)
    &&& n.e <= 0
    &&& n.m != 0 ==> n.e <= -19
}

struct Mash {
    n: Fp,
}

impl Mash {
    fn new() -> (r: Mash)
        ensures
            r.n == mash_init(),
            mash_n_wf(r.n),
            r.n.e >= -52,
    {
        let n = fp_of_u64(0xefc8249d);
        proof {
            vstd::arithmetic::power2::lemma2_to64();
            vstd::arithmetic::power2::lemma2_to64_rest();
            lemma_blen_le(0xefc8249d, 32);
            lemma_blen_ge(0xefc8249d, 31);
            lemma_fp_round_range(0xefc8249d, 0);
        }
        Mash { n }
    }

    #[verifier::rlimit(60)]
    fn mash(&mut self, s: &str) -> (r: Fp)
        requires
            mash_n_wf(old(self).n),
            old(self).n.e >= -100_000_000_000_000_000,
            s@.len() <= 0x100000000000,
        ensures
            final(self).n == mash_fold(old(self).n, s@),
            mash_n_wf(final(self).n),
            final(self).n.e >= old(self).n.e - 500 * s@.len(),
            r == fp_scale_spec(final(self).n, -32),
            fp_wf(r),
            r.m != 0 ==> r.e <= -51,
            r.e >= old(self).n.e - 500 * s@.len() - 32,
    {
        let len: usize = s.unicode_len();
        let mut i: usize = 0;
        proof {
            assert(s@.subrange(0, len as int) =~= s@);
        }
        while i < len
            invariant
                i <= len,
                len == s@.len() <= 0x100000000000,
                mash_fold(old(self).n, s@) == mash_fold(self.n, s@.subrange(i as int, len as int)),
                mash_n_wf(self.n),
                self.n.e >= old(self).n.e - 500 * i,
                old(self).n.e >= -100_000_000_000_000_000,
            decreases len - i,
        {
            let ch: char = s.get_char(i);
            let code: u32 = ch as u32;
            self.n = mash_step(self.n, code);
            proof {
                assert(s@.subrange(i as int, len as int).subrange(1, (len - i) as int) =~= s@
                    .subrange(i + 1, len as int));
                assert(s@.subrange(i as int, len as int)[0] == s@[i as int]);
            }
            i = i + 1;
        }
        proof {
            assert(s@.subrange(len as int, len as int) =~= Seq::<char>::empty());
        }
        fp_scale(self.n, -32)
    }
}

/// One mash round over exact doubles.
fn mash_step(n: Fp, code: u32) -> (r: Fp)
    requires
        mash_n_wf(n),
        n.e >= -150_000_000_000_000_000,
        code <= 0x10FFFF,
    ensures
        r == mash_step_spec(n, code),
        mash_n_wf(r),
        r.e >= n.e - 500,
{
    proof {
        vstd::arithmetic::power2::lemma2_to64();
        vstd::arithmetic::power2::lemma2_to64_rest();
        lemma_blen_le(code as nat, 21);
        if code > 0 {
            lemma_fp_round_range(code as nat, 0);
        }
    }
    let codef = fp_of_u64(code as u64);
    let nf = fp_add(n, codef);
    proof {
        assert(fp_wf(mash_c())) by {
            vstd::arithmetic::power2::lemma2_to64_rest();
        };
        if n.m != 0 && codef.m == 0 {
            lemma_fp_round_id(n);
        }
        if n.m == 0 && codef.m != 0 {
            lemma_fp_round_id(codef);
        }
        assert(nf.m != 0 ==> nf.e <= -17);
    }
    let cmul = Fp { m: 7262262018441216, e: -58 };
    proof {
        assert(cmul == mash_c());
    }
    let h1 = fp_mul(cmul, nf);
    let t1 = fp_trunc(&h1);
    proof {
        if h1.m != 0 && h1.e >= -52 {
            assert(pow2((53 + h1.e) as nat) <= pow2(31)) by {
                if 53 + h1.e < 31 {
                    vstd::arithmetic::power2::lemma_pow2_strictly_increases((53 + h1.e) as nat, 31);
                }
            };
        }
        lemma_blen_le(t1 as nat, 31);
        if t1 > 0 {
            lemma_fp_round_range(t1 as nat, 0);
        }
    }
    let n1 = fp_of_u64(t1);
    let h2 = fp_sub_abs(h1, n1);
    proof {
        if h1.m != 0 {
            lemma_frac_small(h1);
        }
        if h1.m != 0 && n1.m == 0 {
            lemma_fp_round_id(h1);
        }
        assert(h2.m != 0 ==> h2.e <= -22);
    }
    let h3 = fp_mul(h2, n1);
    let t2 = fp_trunc(&h3);
    proof {
        if h3.m != 0 && h3.e >= -52 {
            assert(pow2((53 + h3.e) as nat) <= pow2(31)) by {
                if 53 + h3.e < 31 {
                    vstd::arithmetic::power2::lemma_pow2_strictly_increases((53 + h3.e) as nat, 31);
                }
            };
        }
        lemma_blen_le(t2 as nat, 31);
        if t2 > 0 {
            lemma_fp_round_range(t2 as nat, 0);
        }
    }
    let n2 = fp_of_u64(t2);
    let h4 = fp_sub_abs(h3, n2);
    proof {
        if h3.m != 0 {
            lemma_frac_small(h3);
        }
        if h3.m != 0 && n2.m == 0 {
            lemma_fp_round_id(h3);
        }
        assert(h4.m != 0 ==> h4.e <= -53);
    }
    let h4s = fp_scale(h4, 32);
    let r = fp_add(n2, h4s);
    proof {
        if n2.m != 0 && h4s.m == 0 {
            lemma_fp_round_id(n2);
        }
        if n2.m == 0 && h4s.m != 0 {
            lemma_fp_round_id(h4s);
        }
    }
    r
}

/// The blank-then-seed mixing of one state value.
fn seed_mix(s: Fp, m: Fp) -> (r: Fp)
    requires
        fp_wf(s),
        fp_wf(m),
        fp_mid(s),
        fp_mid(m),
        s.m != 0 ==> s.e <= -51,
        m.m != 0 ==> m.e <= -51,
        s.e >= -150_000_000_000_000_000,
        m.e >= -150_000_000_000_000_000,
    ensures
        r == seed_mix_spec(s, m),
        alea_val_wf(r),
{
    proof {
        vstd::arithmetic::power2::lemma2_to64();
        vstd::arithmetic::power2::lemma2_to64_rest();
    }
    if fp_lt(&s, &m) {
        let d = fp_sub_abs(m, s);
        let one = Fp { m: 0x10000000000000, e: -52 };
        proof {
            assert(one == fp_one());
            assert(fp_wf(one));
            if s.m == 0 {
                lemma_fp_round_id(m);
            }
            assert(d.m != 0 ==> d.e <= -50);
        }
        let r = fp_sub_abs(one, d);
        proof {
            if d.m == 0 {
                lemma_fp_round_id(one);
            }
        }
        r
    } else {
        let r = fp_sub_abs(s, m);
        proof {
            if m.m == 0 && s.m != 0 {
                lemma_fp_round_id(s);
            }
        }
        r
    }
}

impl Alea {
    #[verifier::rlimit(50)]
    fn new(seed: &Seed) -> (r: Alea)
        requires
            seed.str_spec().len() <= 0x100000000000,
        ensures
            r == alea_seed_spec(seed.str_spec()),
            alea_wf(r),
    {
        proof {
            reveal(alea_seed_spec);
            reveal_strlit(" ");
            assert(" "@ =~= seq![' ']);
        }
        let mut mash = Mash::new();
        let m1 = mash.mash(" ");
        let m2 = mash.mash(" ");
        let m3 = mash.mash(" ");
        let m4 = mash.mash(seed.inner_str());
        let m5 = mash.mash(seed.inner_str());
        let m6 = mash.mash(seed.inner_str());
        let s0 = seed_mix(m1, m4);
        let s1 = seed_mix(m2, m5);
        let s2 = seed_mix(m3, m6);
        Alea { c: 1, s0, s1, s2 }
    }

    fn set_state(&mut self, state: AleaState)
        requires
            alea_state_wf(state),
        ensures
            final(self).c == state.c && final(self).s0 == state.s0 && final(self).s1 == state.s1
                && final(self).s2 == state.s2,
            alea_wf(*final(self)),
    {
        self.c = state.c;
        self.s0 = state.s0;
        self.s1 = state.s1;
        self.s2 = state.s2;
    }

    fn get_state(&self) -> (r: AleaState)
        ensures
            r == (AleaState { c: self.c, s0: self.s0, s1: self.s1, s2: self.s2 }),
    {
        AleaState { c: self.c, s0: self.s0, s1: self.s1, s2: self.s2 }
    }

    /// One step of the generator, returning the new fractional value.
    fn next(&mut self) -> (r: Fp)
        requires
            alea_wf(*old(self)),
        ensures
            *final(self) == alea_next_spec(*old(self)),
            alea_wf(*final(self)),
            r == final(self).s2,
            r.m != 0 ==> r.e <= -53,
    {
        proof {
            vstd::arithmetic::power2::lemma2_to64();
            vstd::arithmetic::power2::lemma2_to64_rest();
            lemma_blen_le(self.c as nat, 28);
            if self.s0.m != 0 {
                assert((2091639 as nat) * (self.s0.m as nat) >= pow2(72)) by {
                    vstd::arithmetic::mul::lemma_mul_inequality(0x100000, 2091639,
                        self.s0.m as int);
                    vstd::arithmetic::mul::lemma_mul_inequality(pow2(52) as int, self.s0.m as int,
                        0x100000);
                    vstd::arithmetic::mul::lemma_mul_is_commutative(self.s0.m as int, 0x100000);
                    vstd::arithmetic::power2::lemma_pow2_adds(20, 52);
                };
                lemma_blen_ge((2091639 as nat) * (self.s0.m as nat), 72);
            }
        }
        let t = fp_fma(self.s0, 2091639, self.c, -32);
        proof {
            if t.m != 0 {
                if self.s0.m == 0 {
                    assert(t == fp_round(self.c as nat, -32));
                    lemma_fp_round_range(self.c as nat, -32);
                    assert(t.e <= -56);
                } else {
                    assert(t.e <= -25);
                }
            }
        }
        let c2 = fp_trunc(&t);
        proof {
            if t.m != 0 && t.e >= -52 {
                assert(pow2((53 + t.e) as nat) <= pow2(28)) by {
                    if 53 + t.e < 28 {
                        vstd::arithmetic::power2::lemma_pow2_strictly_increases((53 + t.e) as nat,
                            28);
                    }
                };
            }
            assert(c2 < 0x10000000);
        }
        let cf = fp_of_u64(c2);
        let s2n = fp_sub_abs(t, cf);
        proof {
            if t.m != 0 {
                lemma_frac_small(t);
                if c2 == 0 {
                    assert(s2n == t);
                    assert(s2n.m != 0 ==> s2n.e <= -53);
                } else {
                    assert(s2n.m != 0 ==> -105 <= s2n.e <= -53);
                }
            } else {
                assert(c2 == 0);
                assert(cf == fp_zero());
                assert(s2n == fp_round(0, 0));
            }
            assert(alea_val_wf(s2n));
        }
        self.s0 = self.s1;
        self.s1 = self.s2;
        self.c = c2;
        self.s2 = s2n;
        s2n
    }
}

/// The public face of the generator.
#[derive(Debug, Clone, Copy)]
pub struct Prng {
    pub xg: Alea,
}

impl Prng {
    pub(crate) fn new(seed: &Seed) -> (r: Prng)
        requires
            seed.str_spec().len() <= 0x100000000000,
        ensures
            r.xg == alea_seed_spec(seed.str_spec()),
            alea_wf(r.xg),
    {
        Prng { xg: Alea::new(seed) }
    }

    /// The next unit draw, a double in `[0, 1)`.
    pub fn get_next(&mut self) -> (r: Fp)
        requires
            alea_wf(old(self).xg),
        ensures
            final(self).xg == alea_next_spec(old(self).xg),
            alea_wf(final(self).xg),
            r == final(self).xg.s2,
            r.m != 0 ==> r.e <= -53,
    {
        self.xg.next()
    }

    /// The next draw scaled to a signed 32-bit integer.
    pub fn int32(&mut self) -> (r: i32)
        requires
            alea_wf(old(self).xg),
        ensures
            final(self).xg == alea_next_spec(old(self).xg),
            alea_wf(final(self).xg),
            r as int == ({
                let w = fp_trunc_spec(fp_scale_spec(final(self).xg.s2, 32)) % 0x100000000;
                if w < 0x80000000 {
                    w as int
                } else {
                    w - 0x100000000
                }
            }),
    {
        let v = self.xg.next();
        proof {
            assert(alea_wf(self.xg));
            assert(alea_val_wf(self.xg.s2));
            assert(v == self.xg.s2);
            vstd::arithmetic::power2::lemma_pow2_pos(52);
            assert(fp_wf(v));
            assert(fp_mid(v));
        }
        let sc = fp_scale(v, 32);
        let w = fp_trunc(&sc);
        let w2: u64 = w % 0x100000000;
        if w2 < 0x80000000 {
            w2 as i32
        } else {
            ((w2 as i64) - 0x100000000i64) as i32
        }
    }

    /// Two draws combined into a double with 53 bits of precision: the
    /// first draw's top 21 bits fill in below the second draw's precision.
    /// The contract records that the result stays below `1 + 2^-31`; it
    /// lies in `[0, 1)` whenever the second draw leaves room for the
    /// sub-`2^-32` top-up term, as every draw of a coarse-grained state
    /// does.
    pub fn double(&mut self) -> (r: Fp)
        requires
            alea_wf(old(self).xg),
        ensures
            ({
                let g1 = alea_next_spec(old(self).xg);
                let g2 = alea_next_spec(g1);
                let x = fp_trunc_spec(fp_scale_spec(g1.s2, 21));
                final(self).xg == g2 && r == fp_add_spec(
                    fp_scale_spec(fp_round(x, 0), -53),
                    g2.s2,
                ) && fp_wf(r)
            }),
            alea_wf(final(self).xg),
            r.m != 0 ==> r.e <= -52,
            r.m != 0 && r.e == -52 ==> r.m <= 0x10000000200000,
            r.e >= -190_000_000_000_001_000,
            fp_mid(r),
    {
        let a = self.xg.next();
        proof {
            assert(alea_val_wf(self.xg.s2));
            assert(a == self.xg.s2);
            vstd::arithmetic::power2::lemma_pow2_pos(52);
            assert(fp_mid(a));
        }
        let sc = fp_scale(a, 21);
        let x = fp_trunc(&sc);
        let b = self.xg.next();
        proof {
            vstd::arithmetic::power2::lemma2_to64();
            vstd::arithmetic::power2::lemma2_to64_rest();
            lemma_blen_le(x as nat, 64);
            if x > 0 {
                vstd::arithmetic::power2::lemma_pow2_adds(32, 32);
                lemma_fp_round_range(x as nat, 0);
            }
        }
        let xf = fp_of_u64(x);
        proof {
            if sc.m != 0 && sc.e >= -52 {
                assert(x < pow2((53 + sc.e) as nat));
                assert(pow2((53 + sc.e) as nat) <= pow2(21)) by {
                    if 53 + sc.e < 21 {
                        vstd::arithmetic::power2::lemma_pow2_strictly_increases(
                            (53 + sc.e) as nat,
                            21,
                        );
                    }
                };
            }
            lemma_blen_le(x as nat, 21);
            if x > 0 {
                lemma_fp_round_range(x as nat, 0);
            }
            vstd::arithmetic::power2::lemma_pow2_pos(52);
        }
        let xs = fp_scale(xf, -53);
        let r = fp_add(xs, b);
        proof {
            if xs.m == 0 && b.m != 0 {
                lemma_fp_round_id(b);
            }
            if xs.m != 0 && b.m == 0 {
                lemma_fp_round_id(xs);
            }
            if xs.m != 0 && b.m != 0 && xs.e + 31 <= b.e {
                crate::fp::lemma_add_tiny(b, xs);
            }
        }
        r
    }

    /// The current state, for later resumption.
    pub fn get_state(&self) -> (r: AleaState)
        ensures
            r.c == self.xg.c && r.s0 == self.xg.s0 && r.s1 == self.xg.s1 && r.s2 == self.xg.s2,
    {
        self.xg.get_state()
    }

    /// Resume from an exported state.
    pub fn import_state(self, state: AleaState) -> (r: Prng)
        requires
            alea_state_wf(state),
        ensures
            r.xg.c == state.c && r.xg.s0 == state.s0 && r.xg.s1 == state.s1 && r.xg.s2
                == state.s2,
            alea_wf(r.xg),
    {
        let mut s = self;
        s.xg.set_state(state);
        s
    }
}

/// Build a generator from a seed.
pub fn alea(seed: Seed) -> (r: Prng)
    requires
        seed.str_spec().len() <= 0x100000000000,
    ensures
        r.xg == alea_seed_spec(seed.str_spec()),
        alea_wf(r.xg),
{
    Prng::new(&seed)
}

/// Determinism: two generators seeded with the same characters are equal,
/// and equal generators yield the same draw sequence, for any length.
pub proof fn lemma_alea_deterministic(s1: Seq<char>, s2: Seq<char>, n: nat)
    requires
        s1 == s2,
    ensures
        alea_seed_spec(s1) == alea_seed_spec(s2),
        alea_draws(alea_seed_spec(s1), n) == alea_draws(alea_seed_spec(s2), n),
{
}

/// Round trip: importing an exported state restores the generator exactly,
/// so the draws after the import equal the draws the original generator
/// would have produced, for every count `n`.
pub proof fn lemma_alea_state_round_trip(a: Alea, n: nat)
    ensures
        ({
            let st = AleaState { c: a.c, s0: a.s0, s1: a.s1, s2: a.s2 };
            let b = Alea { c: st.c, s0: st.s0, s1: st.s1, s2: st.s2 };
            b == a && alea_draws(b, n) == alea_draws(a, n)
        }),
{
}

} // verus!

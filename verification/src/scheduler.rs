//! Bookkeeping shared by both scheduling strategies: snapshotting the card,
//! advancing the repetition count and elapsed days, the per-call memo table,
//! and the interval ordering that keeps harder grades from outscheduling
//! easier ones.
use vstd::prelude::*;
use crate::fp::{Fp, fp_wf, fp_mid, fp_one, fp_trunc_spec, fp_add_spec, fp_max_spec, fp_lt_spec,
    fp_add, fp_lt, fp_trunc, lemma_trunc_monotone, lemma_trunc_add_one};
use crate::models::{Card, Rating, ReviewLog, SchedulingInfo, State};
use vstd::arithmetic::power2::pow2;
use crate::parameters::{Parameters, apply_fuzz_spec};

verus! {

/// Timestamps the scheduling arithmetic accepts: about thirty thousand
/// years around the epoch, in milliseconds.
pub open spec fn ts_ok(t: i64) -> bool {
    -1_000_000_000_000_000 <= t <= 1_000_000_000_000_000
}

/// A card whose counters and timestamps the bookkeeping can advance.
pub open spec fn card_ok(c: Card) -> bool {
    &&& ts_ok(c.last_review)
    &&& c.reps < 0x7fffffff
    &&& c.lapses < 0x7fffffff
}

/// A configuration the verified core can schedule with: a positive interval
/// cap small enough for the exact fuzz arithmetic, and a seed of sane length.
pub open spec fn params_ok(p: Parameters) -> bool {
    &&& 1 <= p.maximum_interval <= 2_000_000
    &&& p.seed.str_spec().len() <= 0x100000000000
}

/// The output of the memory-model formulas for one rating branch: the next
/// difficulty and stability (as IEEE 754 bits, carried through unchanged)
/// and the un-fuzzed next interval in days, already rounded and clamped to
/// `[1, maximum_interval]`.
#[derive(Debug, Clone, Copy, PartialEq, Eq, Structural)]
pub struct BranchValues {
    pub difficulty: u64,
    pub stability: u64,
    pub raw_interval: i64,
}

/// The formula outputs for all four rating branches.
#[derive(Debug, Clone, Copy, PartialEq, Eq, Structural)]
pub struct StrategyInputs {
    pub again: BranchValues,
    pub hard: BranchValues,
    pub good: BranchValues,
    pub easy: BranchValues,
}

impl StrategyInputs {
    pub open spec fn get_spec(&self, rating: Rating) -> BranchValues {
        match rating {
            Rating::Again => self.again,
            Rating::Hard => self.hard,
            Rating::Good => self.good,
            Rating::Easy => self.easy,
        }
    }

    pub fn get(&self, rating: Rating) -> (b: BranchValues)
        ensures
            b == self.get_spec(rating),
    {
        match rating {
            Rating::Again => self.again,
            Rating::Hard => self.hard,
            Rating::Good => self.good,
            Rating::Easy => self.easy,
        }
    }
}

/// Every branch interval lies in `[1, maximum_interval]`, as the formulas'
/// clamping guarantees.
pub open spec fn inputs_ok(inp: StrategyInputs, p: Parameters) -> bool {
    &&& 1 <= inp.again.raw_interval <= p.maximum_interval
    &&& 1 <= inp.hard.raw_interval <= p.maximum_interval
    &&& 1 <= inp.good.raw_interval <= p.maximum_interval
    &&& 1 <= inp.easy.raw_interval <= p.maximum_interval
}

/// The memo table of one scheduling call: each rating's outcome is computed
/// once and then returned unchanged.
#[derive(Debug, Clone, Copy, PartialEq, Eq, Structural)]
pub struct MemoTable {
    pub again: Option<SchedulingInfo>,
    pub hard: Option<SchedulingInfo>,
    pub good: Option<SchedulingInfo>,
    pub easy: Option<SchedulingInfo>,
}

impl MemoTable {
    pub open spec fn get_spec(&self, rating: Rating) -> Option<SchedulingInfo> {
        match rating {
            Rating::Again => self.again,
            Rating::Hard => self.hard,
            Rating::Good => self.good,
            Rating::Easy => self.easy,
        }
    }

    pub fn empty() -> (r: MemoTable)
        ensures
            r.again is None && r.hard is None && r.good is None && r.easy is None,
    {
        MemoTable { again: None, hard: None, good: None, easy: None }
    }

    pub fn get(&self, rating: Rating) -> (r: Option<SchedulingInfo>)
        ensures
            r == self.get_spec(rating),
    {
        match rating {
            Rating::Again => self.again,
            Rating::Hard => self.hard,
            Rating::Good => self.good,
            Rating::Easy => self.easy,
        }
    }

    pub fn set(&mut self, rating: Rating, info: SchedulingInfo)
        ensures
            final(self).get_spec(rating) == Some(info),
            forall|r: Rating| r != rating ==> final(self).get_spec(r) == old(self).get_spec(r),
    {
        match rating {
            Rating::Again => self.again = Some(info),
            Rating::Hard => self.hard = Some(info),
            Rating::Good => self.good = Some(info),
            Rating::Easy => self.easy = Some(info),
        }
    }
}

/// Whole days between two timestamps, truncated toward zero, as
/// `chrono::Duration::num_days` computes them.
pub open spec fn days_between(now: i64, last: i64) -> int {
    if now >= last {
        (now - last) / 86_400_000
    } else {
        -((last - now) / 86_400_000)
    }
}

/// The current-card snapshot at the start of a scheduling call: elapsed
/// days refreshed (zero for a new card), the review time stamped, and the
/// repetition count advanced.
pub open spec fn current_card_spec(card: Card, now: i64) -> Card {
    Card {
        elapsed_days: if card.state == State::New {
            0int as i64
        } else {
            days_between(now, card.last_review) as i64
        },
        last_review: now,
        reps: (card.reps + 1) as i32,
        ..card
    }
}

/// The log entry for one rating, drawn from the pre-update snapshot.
pub open spec fn build_log_spec(s: Scheduler, rating: Rating) -> ReviewLog {
    ReviewLog {
        rating,
        state: s.current.state,
        elapsed_days: s.current.elapsed_days,
        scheduled_days: s.current.scheduled_days,
        reviewed_date: s.now,
    }
}

/// The shared scheduling state: the configuration, the card as it was
/// handed in (`last`), the refreshed snapshot (`current`), the time of the
/// call, and the memo table.
#[derive(Debug, Clone)]
pub struct Scheduler {
    pub parameters: Parameters,
    pub last: Card,
    pub current: Card,
    pub now: i64,
    pub next: MemoTable,
}

impl Scheduler {
    /// Start a scheduling call: snapshot the card and advance its
    /// bookkeeping.  The fuzz seed for this call is the one carried in
    /// `parameters.seed`.
    pub fn new(parameters: Parameters, card: Card, now: i64) -> (r: Scheduler)
        requires
            ts_ok(now),
            card_ok(card),
        ensures
            r.parameters == parameters,
            r.last == card,
            r.now == now,
            r.current == current_card_spec(card, now),
            r.next.again is None && r.next.hard is None && r.next.good is None && r.next.easy
                is None,
    {
        let elapsed: i64 = if matches!(card.state, State::New) {
            0
        } else {
            let diff: i64 = now - card.last_review;
            if diff >= 0 {
                ((diff as u64) / 86_400_000) as i64
            } else {
                -((((-diff) as u64) / 86_400_000) as i64)
            }
        };
        let current = Card { elapsed_days: elapsed, last_review: now, reps: card.reps + 1, ..card };
        Scheduler { parameters, last: card, current, now, next: MemoTable::empty() }
    }

    /// The log entry for one rating.
    pub fn build_log(&self, rating: Rating) -> (r: ReviewLog)
        ensures
            r == build_log_spec(*self, rating),
    {
        ReviewLog {
            rating,
            state: self.current.state,
            elapsed_days: self.current.elapsed_days,
            scheduled_days: self.current.scheduled_days,
            reviewed_date: self.now,
        }
    }
}

/// A value at least one: the nondegenerate range of a computed interval.
pub open spec fn fp_ge_one(a: Fp) -> bool {
    a.m != 0 && a.e >= -52
}

/// The ordered successor interval `max(cand, prev + 1.0)`: the next grade's
/// interval, forced at least one day past the previous grade's.
pub fn next_after(prev: Fp, cand: Fp) -> (r: Fp)
    requires
        fp_wf(prev),
        fp_wf(cand),
        fp_mid(prev),
        fp_mid(cand),
        prev.m != 0 ==> prev.e <= -18,
        cand.m != 0 ==> cand.e <= -18,
    ensures
        r == fp_max_spec(cand, fp_add_spec(prev, fp_one())),
        fp_wf(r),
        fp_mid(r),
        r.m != 0 ==> r.e <= -16,
        r.m != 0 ==> r.e as int <= ({
            let cb = if cand.m != 0 {
                cand.e as int
            } else {
                -52
            };
            let pb = if prev.m != 0 && prev.e >= -52 {
                prev.e + 1
            } else if prev.m != 0 {
                -50
            } else {
                -52
            };
            if cb >= pb {
                cb
            } else {
                pb
            }
        }),
        fp_ge_one(prev) ==> fp_trunc_spec(r) >= fp_trunc_spec(prev) + 1 && fp_ge_one(r),
{
    proof {
        vstd::arithmetic::power2::lemma2_to64();
        vstd::arithmetic::power2::lemma2_to64_rest();
    }
    let one = Fp { m: 0x10000000000000, e: -52 };
    proof {
        assert(one == fp_one());
    }
    let s = fp_add(prev, one);
    proof {
        if prev.m == 0 {
            crate::fp::lemma_fp_round_id(one);
        } else if -52 <= prev.e && prev.e <= -1 {
            crate::fp::lemma_add_one_exp(prev);
        }
    }
    let r = if fp_lt(&cand, &s) {
        s
    } else {
        cand
    };
    proof {
        if prev.m != 0 && prev.e >= -52 {
            lemma_trunc_add_one(prev);
            if !fp_lt_spec(cand, s) {
                lemma_trunc_monotone(s, cand);
            }
            // the advanced integer part puts the result at or above one
            assert(fp_trunc_spec(r) >= 1) by {
                assert(fp_trunc_spec(prev) >= 1) by {
                    vstd::arithmetic::power2::lemma_pow2_pos((-prev.e) as nat);
                    assert(pow2((-prev.e) as nat) <= pow2(52)) by {
                        if (-prev.e) < 52 {
                            vstd::arithmetic::power2::lemma_pow2_strictly_increases(
                                (-prev.e) as nat,
                                52,
                            );
                        }
                    };
                    vstd::arithmetic::div_mod::lemma_div_is_ordered(
                        pow2((-prev.e) as nat) as int,
                        prev.m as int,
                        pow2((-prev.e) as nat) as int,
                    );
                    vstd::arithmetic::div_mod::lemma_div_by_self(pow2((-prev.e) as nat) as int);
                };
            };
            assert(r.m != 0 && r.e >= -52);
        }
    }
    r
}

/// Whole days of a computed interval.
pub fn interval_days(f: &Fp) -> (d: i64)
    requires
        fp_wf(*f),
        f.m != 0 ==> f.e <= -17,
    ensures
        d == fp_trunc_spec(*f),
        0 <= d < 0x1000000000,
{
    proof {
        vstd::arithmetic::power2::lemma2_to64();
        vstd::arithmetic::power2::lemma2_to64_rest();
        if f.m != 0 && f.e >= -52 {
            assert(pow2((53 + f.e) as nat) <= pow2(36)) by {
                if 53 + f.e < 36 {
                    vstd::arithmetic::power2::lemma_pow2_strictly_increases((53 + f.e) as nat, 36);
                }
            };
        }
    }
    let t = fp_trunc(f);
    t as i64
}

/// The fuzzed whole-day interval for one branch, as the strategies store it
/// in `scheduled_days`.
pub open spec fn fuzzed_spec(p: Parameters, raw: i64, elapsed: i64) -> Fp {
    apply_fuzz_spec(p.seed.str_spec(), p.enable_fuzz, raw, elapsed, p.maximum_interval)
}

/// Its whole days.
pub open spec fn fuzzed_days_spec(p: Parameters, raw: i64, elapsed: i64) -> int {
    fp_trunc_spec(fuzzed_spec(p, raw, elapsed)) as int
}

} // verus!

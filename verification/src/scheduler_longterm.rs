//! The long-term strategy: no minute-scale learning steps; every grade gets
//! a full-day interval and lands in the `Review` state, with all four
//! intervals kept strictly ordered.
use vstd::prelude::*;
use crate::fp::{Fp, fp_one, fp_add_spec, fp_max_spec, fp_min_spec, fp_trunc_spec, fp_lt};
use crate::models::{Card, Rating, RecordLog, ReviewLog, SchedulingInfo, State};
use crate::parameters::Parameters;
use crate::scheduler::{Scheduler, StrategyInputs, card_ok, current_card_spec, fuzzed_spec,
    inputs_ok, interval_days, next_after, params_ok, ts_ok};

verus! {

/// The long-term scheduling strategy over one card snapshot.
#[derive(Debug, Clone)]
pub struct LongtermScheduler {
    pub scheduler: Scheduler,
    pub inputs: StrategyInputs,
}

/// The refreshed snapshot this call started from, reconstructed from the
/// unchanged card and time (the strategy zeroes parts of the live snapshot
/// for a new card's log entries).
pub open spec fn lt_current(b: LongtermScheduler) -> Card {
    current_card_spec(b.scheduler.last, b.scheduler.now)
}

/// The elapsed-days argument the interval computation uses: zero for a new
/// card, else the snapshot's elapsed days.
pub open spec fn lt_elapsed(b: LongtermScheduler) -> i64 {
    if b.scheduler.last.state == State::New {
        0int as i64
    } else {
        lt_current(b).elapsed_days
    }
}

/// One interval candidate, fuzzed, before ordering.
pub open spec fn lt_fuzz(b: LongtermScheduler, rating: Rating) -> Fp {
    fuzzed_spec(
        b.scheduler.parameters,
        b.inputs.get_spec(rating).raw_interval,
        lt_elapsed(b),
    )
}

/// The ordered intervals: `again = min(again, hard)`, then each following
/// grade forced at least one day further out.
pub open spec fn lt_again2(b: LongtermScheduler) -> Fp {
    fp_min_spec(lt_fuzz(b, Rating::Again), lt_fuzz(b, Rating::Hard))
}

pub open spec fn lt_hard2(b: LongtermScheduler) -> Fp {
    fp_max_spec(lt_fuzz(b, Rating::Hard), fp_add_spec(lt_again2(b), fp_one()))
}

pub open spec fn lt_good2(b: LongtermScheduler) -> Fp {
    fp_max_spec(lt_fuzz(b, Rating::Good), fp_add_spec(lt_hard2(b), fp_one()))
}

pub open spec fn lt_easy2(b: LongtermScheduler) -> Fp {
    fp_max_spec(lt_fuzz(b, Rating::Easy), fp_add_spec(lt_good2(b), fp_one()))
}

pub open spec fn lt_days(b: LongtermScheduler, rating: Rating) -> int {
    match rating {
        Rating::Again => fp_trunc_spec(lt_again2(b)) as int,
        Rating::Hard => fp_trunc_spec(lt_hard2(b)) as int,
        Rating::Good => fp_trunc_spec(lt_good2(b)) as int,
        Rating::Easy => fp_trunc_spec(lt_easy2(b)) as int,
    }
}

/// The candidate card for one rating: full interval, `Review` state, and a
/// lapse counted when a previously seen card is rated `Again`.
pub open spec fn lt_card_spec(b: LongtermScheduler, rating: Rating) -> Card {
    let v = b.inputs.get_spec(rating);
    let d = lt_days(b, rating);
    let lapsed = b.scheduler.last.state != State::New && rating == Rating::Again;
    Card {
        difficulty: v.difficulty,
        stability: v.stability,
        scheduled_days: d as i64,
        due: (b.scheduler.now + d * 86_400_000) as i64,
        state: State::Review,
        lapses: if lapsed {
            (lt_current(b).lapses + 1) as i32
        } else {
            lt_current(b).lapses
        },
        ..lt_current(b)
    }
}

/// The log entry: for a new card the live snapshot is zeroed first, so its
/// log shows no elapsed or scheduled days.
pub open spec fn lt_log_spec(b: LongtermScheduler, rating: Rating) -> ReviewLog {
    ReviewLog {
        rating,
        state: lt_current(b).state,
        elapsed_days: if b.scheduler.last.state == State::New {
            0int as i64
        } else {
            lt_current(b).elapsed_days
        },
        scheduled_days: if b.scheduler.last.state == State::New {
            0int as i64
        } else {
            lt_current(b).scheduled_days
        },
        reviewed_date: b.scheduler.now,
    }
}

/// The outcome of one rating under the long-term strategy.
pub open spec fn lt_result_spec(b: LongtermScheduler, rating: Rating) -> SchedulingInfo {
    SchedulingInfo { card: lt_card_spec(b, rating), review_log: lt_log_spec(b, rating) }
}

/// Strict whole-day ordering of the four candidate intervals.
pub open spec fn lt_ordered(b: LongtermScheduler) -> bool {
    &&& lt_result_spec(b, Rating::Again).card.scheduled_days <= lt_result_spec(
        b,
        Rating::Hard,
    ).card.scheduled_days
    &&& lt_result_spec(b, Rating::Hard).card.scheduled_days < lt_result_spec(
        b,
        Rating::Good,
    ).card.scheduled_days
    &&& lt_result_spec(b, Rating::Good).card.scheduled_days < lt_result_spec(
        b,
        Rating::Easy,
    ).card.scheduled_days
}

/// The strategy invariant: sane configuration and inputs; the live snapshot
/// is the refreshed card, except that filling the memo table for a new card
/// zeroes its day counters; memoized outcomes are exactly the computed
/// ones, and once computed, the interval ordering is on record.
pub open spec fn lt_wf(b: LongtermScheduler) -> bool {
    &&& ts_ok(b.scheduler.now)
    &&& params_ok(b.scheduler.parameters)
    &&& inputs_ok(b.inputs, b.scheduler.parameters)
    &&& card_ok(b.scheduler.last)
    &&& ((b.scheduler.next.again is None || b.scheduler.next.hard is None
        || b.scheduler.next.good is None || b.scheduler.next.easy is None)
        ==> (b.scheduler.next.again is None && b.scheduler.next.hard is None
        && b.scheduler.next.good is None && b.scheduler.next.easy is None && b.scheduler.current
        == lt_current(b)))
    &&& (b.scheduler.current == lt_current(b) || b.scheduler.current == Card {
        scheduled_days: 0,
        elapsed_days: 0,
        ..lt_current(b)
    })
    &&& (forall|r: Rating|
        (#[trigger] b.scheduler.next.get_spec(r)) is Some ==> b.scheduler.next.get_spec(
            r,
        )->Some_0 == lt_result_spec(b, r))
    &&& (b.scheduler.next.again is Some ==> lt_ordered(b))
}

impl LongtermScheduler {
    /// Start a long-term scheduling call.
    pub fn new(parameters: Parameters, card: Card, now: i64, inputs: StrategyInputs) -> (r:
        LongtermScheduler)
        requires
            ts_ok(now),
            card_ok(card),
            params_ok(parameters),
            inputs_ok(inputs, parameters),
        ensures
            r.scheduler.parameters == parameters,
            r.scheduler.last == card,
            r.scheduler.now == now,
            r.scheduler.current == current_card_spec(card, now),
            r.inputs == inputs,
            lt_wf(r),
    {
        let scheduler = Scheduler::new(parameters, card, now);
        LongtermScheduler { scheduler, inputs }
    }

    /// The outcome for one rating; all four are computed on the first
    /// request and served from the memo table afterwards.
    #[verifier::rlimit(100)]
    #[verifier::spinoff_prover]
    pub fn review(&mut self, rating: Rating) -> (r: SchedulingInfo)
        requires
            lt_wf(*old(self)),
        ensures
            lt_wf(*final(self)),
            final(self).scheduler.parameters == old(self).scheduler.parameters,
            final(self).scheduler.last == old(self).scheduler.last,
            final(self).scheduler.now == old(self).scheduler.now,
            final(self).inputs == old(self).inputs,
            r == lt_result_spec(*old(self), rating),
            lt_ordered(*old(self)),
    {
        if let Some(exist) = self.scheduler.next.get(rating) {
            proof {
                assert(self.scheduler.next.again is Some);
            }
            return exist;
        }
        let is_new = matches!(self.scheduler.last.state, State::New);
        let elapsed: i64 = if is_new {
            0
        } else {
            self.scheduler.current.elapsed_days
        };
        proof {
            assert(elapsed == lt_elapsed(*self));
        }
        let fa = self.scheduler.parameters.apply_fuzz(self.inputs.again.raw_interval, elapsed);
        let fh = self.scheduler.parameters.apply_fuzz(self.inputs.hard.raw_interval, elapsed);
        let fg = self.scheduler.parameters.apply_fuzz(self.inputs.good.raw_interval, elapsed);
        let fe = self.scheduler.parameters.apply_fuzz(self.inputs.easy.raw_interval, elapsed);
        let again2 = if fp_lt(&fh, &fa) {
            fh
        } else {
            fa
        };
        let hard2 = next_after(again2, fh);
        let good2 = next_after(hard2, fg);
        let easy2 = next_after(good2, fe);
        let d_again = interval_days(&again2);
        let d_hard = interval_days(&hard2);
        let d_good = interval_days(&good2);
        let d_easy = interval_days(&easy2);
        let ca = self.make_card(Rating::Again, d_again);
        let ch = self.make_card(Rating::Hard, d_hard);
        let cg = self.make_card(Rating::Good, d_good);
        let ce = self.make_card(Rating::Easy, d_easy);
        if is_new {
            self.scheduler.current.scheduled_days = 0;
            self.scheduler.current.elapsed_days = 0;
        }
        let ia = SchedulingInfo { card: ca, review_log: self.scheduler.build_log(Rating::Again) };
        let ih = SchedulingInfo { card: ch, review_log: self.scheduler.build_log(Rating::Hard) };
        let ig = SchedulingInfo { card: cg, review_log: self.scheduler.build_log(Rating::Good) };
        let ie = SchedulingInfo { card: ce, review_log: self.scheduler.build_log(Rating::Easy) };
        self.scheduler.next.set(Rating::Again, ia);
        self.scheduler.next.set(Rating::Hard, ih);
        self.scheduler.next.set(Rating::Good, ig);
        self.scheduler.next.set(Rating::Easy, ie);
        match rating {
            Rating::Again => ia,
            Rating::Hard => ih,
            Rating::Good => ig,
            Rating::Easy => ie,
        }
    }

    /// One candidate card from its computed whole-day interval.
    fn make_card(&self, rating: Rating, d: i64) -> (r: Card)
        requires
            ts_ok(self.scheduler.now),
            0 <= d < 0x1000000000,
            self.scheduler.current.lapses < 0x7fffffff,
            self.scheduler.current == lt_current(*self),
        ensures
            r == ({
                let v = self.inputs.get_spec(rating);
                let lapsed = self.scheduler.last.state != State::New && rating == Rating::Again;
                Card {
                    difficulty: v.difficulty,
                    stability: v.stability,
                    scheduled_days: d,
                    due: (self.scheduler.now + d * 86_400_000) as i64,
                    state: State::Review,
                    lapses: if lapsed {
                        (lt_current(*self).lapses + 1) as i32
                    } else {
                        lt_current(*self).lapses
                    },
                    ..lt_current(*self)
                }
            }),
    {
        let v = self.inputs.get(rating);
        let lapsed = !matches!(self.scheduler.last.state, State::New) && matches!(
            rating,
            Rating::Again,
        );
        Card {
            difficulty: v.difficulty,
            stability: v.stability,
            scheduled_days: d,
            due: self.scheduler.now + d * 86_400_000,
            state: State::Review,
            lapses: if lapsed {
                self.scheduler.current.lapses + 1
            } else {
                self.scheduler.current.lapses
            },
            ..self.scheduler.current
        }
    }

    /// All four outcomes of this call.
    pub fn preview(&mut self) -> (r: RecordLog)
        requires
            lt_wf(*old(self)),
        ensures
            lt_wf(*final(self)),
            r.again == lt_result_spec(*old(self), Rating::Again),
            r.hard == lt_result_spec(*old(self), Rating::Hard),
            r.good == lt_result_spec(*old(self), Rating::Good),
            r.easy == lt_result_spec(*old(self), Rating::Easy),
    {
        let again = self.review(Rating::Again);
        let hard = self.review(Rating::Hard);
        let good = self.review(Rating::Good);
        let easy = self.review(Rating::Easy);
        RecordLog { again, hard, good, easy }
    }
}

} // verus!

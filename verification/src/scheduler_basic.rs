//! The short-term strategy: separate minute-scale learning steps before a
//! card enters the long-term `Review` state.
use vstd::prelude::*;
use crate::fp::{Fp, fp_one, fp_add_spec, fp_max_spec, fp_min_spec, fp_trunc_spec, fp_lt};
use crate::models::{Card, Rating, RecordLog, SchedulingInfo, State};
use crate::parameters::Parameters;
use crate::scheduler::{Scheduler, StrategyInputs, build_log_spec, card_ok, current_card_spec,
    fuzzed_days_spec, fuzzed_spec, inputs_ok, interval_days, next_after, params_ok, ts_ok};

verus! {

/// The short-term scheduling strategy over one card snapshot.
#[derive(Debug, Clone)]
pub struct BasicScheduler {
    pub scheduler: Scheduler,
    pub inputs: StrategyInputs,
}

/// The candidate card for one rating when the card is new: short fixed
/// offsets for `Again`/`Hard`/`Good`, a full first interval for `Easy`.
pub open spec fn basic_new_card_spec(b: BasicScheduler, rating: Rating) -> Card {
    let s = b.scheduler;
    let v = b.inputs.get_spec(rating);
    let base = Card { difficulty: v.difficulty, stability: v.stability, ..s.current };
    match rating {
        Rating::Again => Card {
            scheduled_days: 0,
            due: (s.now + 60_000) as i64,
            state: State::Learning,
            ..base
        },
        Rating::Hard => Card {
            scheduled_days: 0,
            due: (s.now + 300_000) as i64,
            state: State::Learning,
            ..base
        },
        Rating::Good => Card {
            scheduled_days: 0,
            due: (s.now + 600_000) as i64,
            state: State::Learning,
            ..base
        },
        Rating::Easy => {
            let d = fuzzed_days_spec(s.parameters, v.raw_interval, s.current.elapsed_days);
            Card {
                scheduled_days: d as i64,
                due: (s.now + d * 86_400_000) as i64,
                state: State::Review,
                ..base
            }
        },
    }
}

/// The candidate card for one rating during a learning or relearning step.
pub open spec fn basic_learning_card_spec(b: BasicScheduler, rating: Rating) -> Card {
    let s = b.scheduler;
    let v = b.inputs.get_spec(rating);
    let base = Card { difficulty: v.difficulty, stability: v.stability, ..s.current };
    let interval = s.current.elapsed_days;
    match rating {
        Rating::Again => Card {
            scheduled_days: 0,
            due: (s.now + 300_000) as i64,
            state: s.last.state,
            ..base
        },
        Rating::Hard => Card {
            scheduled_days: 0,
            due: (s.now + 600_000) as i64,
            state: s.last.state,
            ..base
        },
        Rating::Good => {
            let d = fuzzed_days_spec(s.parameters, b.inputs.good.raw_interval, interval);
            Card {
                scheduled_days: d as i64,
                due: (s.now + d * 86_400_000) as i64,
                state: State::Review,
                ..base
            }
        },
        Rating::Easy => {
            let gf = fuzzed_spec(s.parameters, b.inputs.good.raw_interval, interval);
            let ef = fuzzed_spec(s.parameters, b.inputs.easy.raw_interval, interval);
            let e2 = fp_max_spec(ef, fp_add_spec(gf, fp_one()));
            let d = fp_trunc_spec(e2) as int;
            Card {
                scheduled_days: d as i64,
                due: (s.now + d * 86_400_000) as i64,
                state: State::Review,
                ..base
            }
        },
    }
}

/// The three ordered review intervals: `hard = min(hard, good)`, then each
/// following grade forced at least one day further out.
pub open spec fn basic_review_hard2_spec(b: BasicScheduler) -> Fp {
    let s = b.scheduler;
    let interval = s.current.elapsed_days;
    fp_min_spec(
        fuzzed_spec(s.parameters, b.inputs.hard.raw_interval, interval),
        fuzzed_spec(s.parameters, b.inputs.good.raw_interval, interval),
    )
}

pub open spec fn basic_review_good2_spec(b: BasicScheduler) -> Fp {
    let s = b.scheduler;
    let interval = s.current.elapsed_days;
    fp_max_spec(
        fuzzed_spec(s.parameters, b.inputs.good.raw_interval, interval),
        fp_add_spec(basic_review_hard2_spec(b), fp_one()),
    )
}

pub open spec fn basic_review_easy2_spec(b: BasicScheduler) -> Fp {
    let s = b.scheduler;
    let interval = s.current.elapsed_days;
    fp_max_spec(
        fuzzed_spec(s.parameters, b.inputs.easy.raw_interval, interval),
        fp_add_spec(basic_review_good2_spec(b), fp_one()),
    )
}

/// The candidate card for one rating after a long-term review: all four
/// branches share the prior memory state; `Again` lapses into relearning.
pub open spec fn basic_review_card_spec(b: BasicScheduler, rating: Rating) -> Card {
    let s = b.scheduler;
    let v = b.inputs.get_spec(rating);
    let base = Card { difficulty: v.difficulty, stability: v.stability, ..s.current };
    match rating {
        Rating::Again => Card {
            scheduled_days: 0,
            due: (s.now + 300_000) as i64,
            state: State::Relearning,
            lapses: (s.current.lapses + 1) as i32,
            ..base
        },
        Rating::Hard => {
            let d = fp_trunc_spec(basic_review_hard2_spec(b)) as int;
            Card {
                scheduled_days: d as i64,
                due: (s.now + d * 86_400_000) as i64,
                state: State::Review,
                ..base
            }
        },
        Rating::Good => {
            let d = fp_trunc_spec(basic_review_good2_spec(b)) as int;
            Card {
                scheduled_days: d as i64,
                due: (s.now + d * 86_400_000) as i64,
                state: State::Review,
                ..base
            }
        },
        Rating::Easy => {
            let d = fp_trunc_spec(basic_review_easy2_spec(b)) as int;
            Card {
                scheduled_days: d as i64,
                due: (s.now + d * 86_400_000) as i64,
                state: State::Review,
                ..base
            }
        },
    }
}

/// The outcome of one rating under the short-term strategy, decided by the
/// card's prior state.
pub open spec fn basic_result_spec(b: BasicScheduler, rating: Rating) -> SchedulingInfo {
    let card = match b.scheduler.last.state {
        State::New => basic_new_card_spec(b, rating),
        State::Learning => basic_learning_card_spec(b, rating),
        State::Relearning => basic_learning_card_spec(b, rating),
        State::Review => basic_review_card_spec(b, rating),
    };
    SchedulingInfo { card, review_log: build_log_spec(b.scheduler, rating) }
}

/// Strict whole-day ordering of the reviewed candidate intervals.
pub open spec fn basic_ordered(b: BasicScheduler) -> bool {
    &&& basic_result_spec(b, Rating::Hard).card.scheduled_days <= basic_result_spec(
        b,
        Rating::Good,
    ).card.scheduled_days
    &&& basic_result_spec(b, Rating::Good).card.scheduled_days < basic_result_spec(
        b,
        Rating::Easy,
    ).card.scheduled_days
}

/// The strategy invariant: sane configuration and inputs, and a memo table
/// that only ever holds the outcome the strategy computes; once a review
/// outcome is computed, the interval ordering is on record.
pub open spec fn basic_wf(b: BasicScheduler) -> bool {
    &&& ts_ok(b.scheduler.now)
    &&& params_ok(b.scheduler.parameters)
    &&& inputs_ok(b.inputs, b.scheduler.parameters)
    &&& b.scheduler.current.lapses < 0x7fffffff
    &&& -24_000_000 <= b.scheduler.current.elapsed_days <= 24_000_000
    &&& (forall|r: Rating|
        (#[trigger] b.scheduler.next.get_spec(r)) is Some ==> b.scheduler.next.get_spec(
            r,
        )->Some_0 == basic_result_spec(b, r))
    &&& (b.scheduler.last.state == State::Review && (b.scheduler.next.again is Some
        || b.scheduler.next.hard is Some || b.scheduler.next.good is Some
        || b.scheduler.next.easy is Some) ==> basic_ordered(b))
}

impl BasicScheduler {
    /// Start a short-term scheduling call.
    pub fn new(parameters: Parameters, card: Card, now: i64, inputs: StrategyInputs) -> (r:
        BasicScheduler)
        requires
            ts_ok(now),
            card_ok(card),
            params_ok(parameters),
            inputs_ok(inputs, parameters),
        ensures
            r.scheduler.parameters == parameters,
            r.scheduler.last == card,
            r.scheduler.now == now,
            r.scheduler.current == current_card_spec(card, now),
            r.inputs == inputs,
            basic_wf(r),
    {
        let scheduler = Scheduler::new(parameters, card, now);
        BasicScheduler { scheduler, inputs }
    }

    fn new_state(&mut self, rating: Rating) -> (r: SchedulingInfo)
        requires
            basic_wf(*old(self)),
            old(self).scheduler.last.state == State::New,
        ensures
            basic_wf(*final(self)),
            final(self).scheduler.parameters == old(self).scheduler.parameters,
            final(self).scheduler.last == old(self).scheduler.last,
            final(self).scheduler.current == old(self).scheduler.current,
            final(self).scheduler.now == old(self).scheduler.now,
            final(self).inputs == old(self).inputs,
            r == basic_result_spec(*old(self), rating),
    {
        if let Some(exist) = self.scheduler.next.get(rating) {
            return exist;
        }
        let v = self.inputs.get(rating);
        let log = self.scheduler.build_log(rating);
        let card = match rating {
            Rating::Again => Card {
                difficulty: v.difficulty,
                stability: v.stability,
                scheduled_days: 0,
                due: self.scheduler.now + 60_000,
                state: State::Learning,
                ..self.scheduler.current
            },
            Rating::Hard => Card {
                difficulty: v.difficulty,
                stability: v.stability,
                scheduled_days: 0,
                due: self.scheduler.now + 300_000,
                state: State::Learning,
                ..self.scheduler.current
            },
            Rating::Good => Card {
                difficulty: v.difficulty,
                stability: v.stability,
                scheduled_days: 0,
                due: self.scheduler.now + 600_000,
                state: State::Learning,
                ..self.scheduler.current
            },
            Rating::Easy => {
                let f = self.scheduler.parameters.apply_fuzz(
                    v.raw_interval,
                    self.scheduler.current.elapsed_days,
                );
                let d = interval_days(&f);
                Card {
                    difficulty: v.difficulty,
                    stability: v.stability,
                    scheduled_days: d,
                    due: self.scheduler.now + d * 86_400_000,
                    state: State::Review,
                    ..self.scheduler.current
                }
            },
        };
        let info = SchedulingInfo { card, review_log: log };
        self.scheduler.next.set(rating, info);
        info
    }

    fn learning_state(&mut self, rating: Rating) -> (r: SchedulingInfo)
        requires
            basic_wf(*old(self)),
            old(self).scheduler.last.state == State::Learning || old(
                self,
            ).scheduler.last.state == State::Relearning,
        ensures
            basic_wf(*final(self)),
            final(self).scheduler.parameters == old(self).scheduler.parameters,
            final(self).scheduler.last == old(self).scheduler.last,
            final(self).scheduler.current == old(self).scheduler.current,
            final(self).scheduler.now == old(self).scheduler.now,
            final(self).inputs == old(self).inputs,
            r == basic_result_spec(*old(self), rating),
    {
        if let Some(exist) = self.scheduler.next.get(rating) {
            return exist;
        }
        let v = self.inputs.get(rating);
        let log = self.scheduler.build_log(rating);
        let interval = self.scheduler.current.elapsed_days;
        let card = match rating {
            Rating::Again => Card {
                difficulty: v.difficulty,
                stability: v.stability,
                scheduled_days: 0,
                due: self.scheduler.now + 300_000,
                state: self.scheduler.last.state,
                ..self.scheduler.current
            },
            Rating::Hard => Card {
                difficulty: v.difficulty,
                stability: v.stability,
                scheduled_days: 0,
                due: self.scheduler.now + 600_000,
                state: self.scheduler.last.state,
                ..self.scheduler.current
            },
            Rating::Good => {
                let f = self.scheduler.parameters.apply_fuzz(v.raw_interval, interval);
                let d = interval_days(&f);
                Card {
                    difficulty: v.difficulty,
                    stability: v.stability,
                    scheduled_days: d,
                    due: self.scheduler.now + d * 86_400_000,
                    state: State::Review,
                    ..self.scheduler.current
                }
            },
            Rating::Easy => {
                let gf = self.scheduler.parameters.apply_fuzz(
                    self.inputs.good.raw_interval,
                    interval,
                );
                let ef = self.scheduler.parameters.apply_fuzz(v.raw_interval, interval);
                let e2 = next_after(gf, ef);
                let d = interval_days(&e2);
                Card {
                    difficulty: v.difficulty,
                    stability: v.stability,
                    scheduled_days: d,
                    due: self.scheduler.now + d * 86_400_000,
                    state: State::Review,
                    ..self.scheduler.current
                }
            },
        };
        let info = SchedulingInfo { card, review_log: log };
        self.scheduler.next.set(rating, info);
        info
    }

    #[verifier::rlimit(100)]
    #[verifier::spinoff_prover]
    fn review_state(&mut self, rating: Rating) -> (r: SchedulingInfo)
        requires
            basic_wf(*old(self)),
            old(self).scheduler.last.state == State::Review,
        ensures
            basic_wf(*final(self)),
            final(self).scheduler.parameters == old(self).scheduler.parameters,
            final(self).scheduler.last == old(self).scheduler.last,
            final(self).scheduler.current == old(self).scheduler.current,
            final(self).scheduler.now == old(self).scheduler.now,
            final(self).inputs == old(self).inputs,
            r == basic_result_spec(*old(self), rating),
            basic_ordered(*old(self)),
    {
        if let Some(exist) = self.scheduler.next.get(rating) {
            return exist;
        }
        let interval = self.scheduler.current.elapsed_days;
        let fh = self.scheduler.parameters.apply_fuzz(self.inputs.hard.raw_interval, interval);
        let fg = self.scheduler.parameters.apply_fuzz(self.inputs.good.raw_interval, interval);
        let fe = self.scheduler.parameters.apply_fuzz(self.inputs.easy.raw_interval, interval);
        let hard2 = if fp_lt(&fg, &fh) {
            fg
        } else {
            fh
        };
        let good2 = next_after(hard2, fg);
        let easy2 = next_after(good2, fe);
        let d_hard = interval_days(&hard2);
        let d_good = interval_days(&good2);
        let d_easy = interval_days(&easy2);
        let again_card = Card {
            difficulty: self.inputs.again.difficulty,
            stability: self.inputs.again.stability,
            scheduled_days: 0,
            due: self.scheduler.now + 300_000,
            state: State::Relearning,
            lapses: self.scheduler.current.lapses + 1,
            ..self.scheduler.current
        };
        let hard_card = Card {
            difficulty: self.inputs.hard.difficulty,
            stability: self.inputs.hard.stability,
            scheduled_days: d_hard,
            due: self.scheduler.now + d_hard * 86_400_000,
            state: State::Review,
            ..self.scheduler.current
        };
        let good_card = Card {
            difficulty: self.inputs.good.difficulty,
            stability: self.inputs.good.stability,
            scheduled_days: d_good,
            due: self.scheduler.now + d_good * 86_400_000,
            state: State::Review,
            ..self.scheduler.current
        };
        let easy_card = Card {
            difficulty: self.inputs.easy.difficulty,
            stability: self.inputs.easy.stability,
            scheduled_days: d_easy,
            due: self.scheduler.now + d_easy * 86_400_000,
            state: State::Review,
            ..self.scheduler.current
        };
        let ia = SchedulingInfo {
            card: again_card,
            review_log: self.scheduler.build_log(Rating::Again),
        };
        let ih = SchedulingInfo {
            card: hard_card,
            review_log: self.scheduler.build_log(Rating::Hard),
        };
        let ig = SchedulingInfo {
            card: good_card,
            review_log: self.scheduler.build_log(Rating::Good),
        };
        let ie = SchedulingInfo {
            card: easy_card,
            review_log: self.scheduler.build_log(Rating::Easy),
        };
        self.scheduler.next.set(Rating::Again, ia);
        self.scheduler.next.set(Rating::Hard, ih);
        self.scheduler.next.set(Rating::Good, ig);
        self.scheduler.next.set(Rating::Easy, ie);
        match rating {
            Rating::Again => ia,
            Rating::Hard => ih,
            Rating::Good => ig,
            Rating::Easy => ie,
        }
    }

    /// The outcome for one rating; computed once per call, then served from
    /// the memo table, so a repeated request returns the same outcome.
    pub fn review(&mut self, rating: Rating) -> (r: SchedulingInfo)
        requires
            basic_wf(*old(self)),
        ensures
            basic_wf(*final(self)),
            final(self).scheduler.parameters == old(self).scheduler.parameters,
            final(self).scheduler.last == old(self).scheduler.last,
            final(self).scheduler.current == old(self).scheduler.current,
            final(self).scheduler.now == old(self).scheduler.now,
            final(self).inputs == old(self).inputs,
            r == basic_result_spec(*old(self), rating),
            old(self).scheduler.last.state == State::Review ==> basic_ordered(*old(self)),
    {
        let state = self.scheduler.last.state;
        match state {
            State::New => self.new_state(rating),
            State::Learning => self.learning_state(rating),
            State::Relearning => self.learning_state(rating),
            State::Review => self.review_state(rating),
        }
    }

    /// All four outcomes of this call.
    pub fn preview(&mut self) -> (r: RecordLog)
        requires
            basic_wf(*old(self)),
        ensures
            basic_wf(*final(self)),
            r.again == basic_result_spec(*old(self), Rating::Again),
            r.hard == basic_result_spec(*old(self), Rating::Hard),
            r.good == basic_result_spec(*old(self), Rating::Good),
            r.easy == basic_result_spec(*old(self), Rating::Easy),
    {
        let again = self.review(Rating::Again);
        let hard = self.review(Rating::Hard);
        let good = self.review(Rating::Good);
        let easy = self.review(Rating::Easy);
        RecordLog { again, hard, good, easy }
    }
}

} // verus!

//! The engine's entry points: compute all four candidate outcomes of a
//! review, or commit exactly one, under the strategy the configuration
//! selects.
use vstd::prelude::*;
use crate::models::{Card, Rating, RecordLog, SchedulingInfo};
use crate::parameters::{Parameters, params_compat};
use crate::scheduler::{MemoTable, Scheduler, StrategyInputs, card_ok, current_card_spec,
    inputs_ok, params_ok, ts_ok};
use crate::scheduler_basic::{BasicScheduler, basic_result_spec};
use crate::scheduler_longterm::{LongtermScheduler, lt_result_spec};

verus! {

/// The scheduling engine: a configuration, applied to one card at a time.
#[derive(Debug, Clone)]
pub struct FSRS {
    pub parameters: Parameters,
}

/// The short-term strategy state a scheduling call starts from.
pub open spec fn basic_start_spec(
    p: Parameters,
    card: Card,
    now: i64,
    inputs: StrategyInputs,
) -> BasicScheduler {
    BasicScheduler {
        scheduler: Scheduler {
            parameters: p,
            last: card,
            current: current_card_spec(card, now),
            now,
            next: MemoTable { again: None, hard: None, good: None, easy: None },
        },
        inputs,
    }
}

/// The long-term strategy state a scheduling call starts from.
pub open spec fn lt_start_spec(
    p: Parameters,
    card: Card,
    now: i64,
    inputs: StrategyInputs,
) -> LongtermScheduler {
    LongtermScheduler {
        scheduler: Scheduler {
            parameters: p,
            last: card,
            current: current_card_spec(card, now),
            now,
            next: MemoTable { again: None, hard: None, good: None, easy: None },
        },
        inputs,
    }
}

/// The outcome the engine commits for one rating: the short-term strategy
/// when learning steps are enabled, the long-term strategy otherwise.
pub open spec fn fsrs_result_spec(
    p: Parameters,
    card: Card,
    now: i64,
    inputs: StrategyInputs,
    rating: Rating,
) -> SchedulingInfo {
    if p.enable_short_term {
        basic_result_spec(basic_start_spec(p, card, now, inputs), rating)
    } else {
        lt_result_spec(lt_start_spec(p, card, now, inputs), rating)
    }
}

/// The strategies read a configuration only through the fields that
/// `params_compat` fixes, so compatible configurations schedule alike.
pub proof fn lemma_fsrs_congruence(
    p1: Parameters,
    p2: Parameters,
    card: Card,
    now: i64,
    inputs: StrategyInputs,
    rating: Rating,
)
    requires
        params_compat(p1, p2),
    ensures
        fsrs_result_spec(p1, card, now, inputs, rating) == fsrs_result_spec(
            p2,
            card,
            now,
            inputs,
            rating,
        ),
{
}

impl FSRS {
    /// An engine with the given configuration.
    pub fn new(parameters: Parameters) -> (r: FSRS)
        ensures
            r.parameters == parameters,
    {
        FSRS { parameters }
    }

    /// All four candidate outcomes, without committing any.
    pub fn repeat(&self, card: Card, now: i64, inputs: StrategyInputs) -> (r: RecordLog)
        requires
            ts_ok(now),
            card_ok(card),
            params_ok(self.parameters),
            inputs_ok(inputs, self.parameters),
        ensures
            r.again == fsrs_result_spec(self.parameters, card, now, inputs, Rating::Again),
            r.hard == fsrs_result_spec(self.parameters, card, now, inputs, Rating::Hard),
            r.good == fsrs_result_spec(self.parameters, card, now, inputs, Rating::Good),
            r.easy == fsrs_result_spec(self.parameters, card, now, inputs, Rating::Easy),
    {
        let p = self.parameters.duplicate();
        proof {
            lemma_fsrs_congruence(self.parameters, p, card, now, inputs, Rating::Again);
            lemma_fsrs_congruence(self.parameters, p, card, now, inputs, Rating::Hard);
            lemma_fsrs_congruence(self.parameters, p, card, now, inputs, Rating::Good);
            lemma_fsrs_congruence(self.parameters, p, card, now, inputs, Rating::Easy);
        }
        if p.enable_short_term {
            let mut s = BasicScheduler::new(p, card, now, inputs);
            s.preview()
        } else {
            let mut s = LongtermScheduler::new(p, card, now, inputs);
            s.preview()
        }
    }

    /// Compute and commit exactly one outcome.
    pub fn next(&self, card: Card, now: i64, inputs: StrategyInputs, rating: Rating) -> (r:
        SchedulingInfo)
        requires
            ts_ok(now),
            card_ok(card),
            params_ok(self.parameters),
            inputs_ok(inputs, self.parameters),
        ensures
            r == fsrs_result_spec(self.parameters, card, now, inputs, rating),
    {
        let p = self.parameters.duplicate();
        proof {
            lemma_fsrs_congruence(self.parameters, p, card, now, inputs, rating);
        }
        if p.enable_short_term {
            let mut s = BasicScheduler::new(p, card, now, inputs);
            s.review(rating)
        } else {
            let mut s = LongtermScheduler::new(p, card, now, inputs);
            s.review(rating)
        }
    }
}

} // verus!

//! The card / rating / state data model.
use vstd::prelude::*;

verus! {

/// The four grades a learner can give at a review, ordered `Again < Hard <
/// Good < Easy`.
#[derive(Debug, Clone, Copy, PartialEq, Eq, Structural, Hash)]
pub enum Rating {
    Again,
    Hard,
    Good,
    Easy,
}

/// The lifecycle phase of a card. `New` is the phase of a never-seen card.
#[derive(Debug, Clone, Copy, PartialEq, Eq, Structural, Hash)]
pub enum State {
    New,
    Learning,
    Review,
    Relearning,
}

impl Rating {
    /// The ordinal of the rating, `Again = 1` through `Easy = 4`.
    pub open spec fn ordinal_spec(self) -> int {
        match self {
            Rating::Again => 1,
            Rating::Hard => 2,
            Rating::Good => 3,
            Rating::Easy => 4,
        }
    }

    /// The ordinal of the rating, `Again = 1` through `Easy = 4`.
    pub fn ordinal(self) -> (r: i32)
        ensures
            r == self.ordinal_spec(),
    {
        match self {
            Rating::Again => 1,
            Rating::Hard => 2,
            Rating::Good => 3,
            Rating::Easy => 4,
        }
    }

    /// All four ratings, in their fixed order.
    pub fn iter() -> (r: Vec<Rating>)
        ensures
            r@ == seq![Rating::Again, Rating::Hard, Rating::Good, Rating::Easy],
    {
        let v: Vec<Rating> = vec![Rating::Again, Rating::Hard, Rating::Good, Rating::Easy];
        proof {
            assert(v@ =~= seq![Rating::Again, Rating::Hard, Rating::Good, Rating::Easy]);
        }
        v
    }
}


/// One schedulable item's memory state.  Timestamps are milliseconds since
/// the Unix epoch; `stability` and `difficulty` are doubles held as their
/// raw IEEE 754 bits, computed by the memory-model formulas and carried
/// through the scheduling core unchanged.
#[derive(Debug, Clone, Copy, PartialEq, Eq, Structural)]
pub struct Card {
    pub due: i64,
    pub stability: u64,
    pub difficulty: u64,
    pub elapsed_days: i64,
    pub scheduled_days: i64,
    pub reps: i32,
    pub lapses: i32,
    pub state: State,
    pub last_review: i64,
}

/// The immutable record of one scheduling event.
#[derive(Debug, Clone, Copy, PartialEq, Eq, Structural)]
pub struct ReviewLog {
    pub rating: Rating,
    pub elapsed_days: i64,
    pub scheduled_days: i64,
    pub state: State,
    pub reviewed_date: i64,
}

/// One candidate outcome: the updated card and its log entry.
#[derive(Debug, Clone, Copy, PartialEq, Eq, Structural)]
pub struct SchedulingInfo {
    pub card: Card,
    pub review_log: ReviewLog,
}

/// The four candidate outcomes of one review, keyed by rating.
#[derive(Debug, Clone, Copy, PartialEq, Eq, Structural)]
pub struct RecordLog {
    pub again: SchedulingInfo,
    pub hard: SchedulingInfo,
    pub good: SchedulingInfo,
    pub easy: SchedulingInfo,
}

impl Card {
    /// A never-seen card, due now.
    pub fn new() -> (r: Card)
        ensures
            r.stability == 0 && r.difficulty == 0 && r.elapsed_days == 0 && r.scheduled_days == 0
                && r.reps == 0 && r.lapses == 0 && r.state == State::New,
            r.due == r.last_review,
    {
        let now: i64 = crate::parameters::now_millis_clamped();
        Card {
            due: now,
            stability: 0,
            difficulty: 0,
            elapsed_days: 0,
            scheduled_days: 0,
            reps: 0,
            lapses: 0,
            state: State::New,
            last_review: now,
        }
    }
}

} // verus!

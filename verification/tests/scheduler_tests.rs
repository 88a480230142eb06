//! The scheduling strategies: state transitions, interval ordering,
//! bookkeeping, and memoization.
use fsrs::{
    BasicScheduler, BranchValues, Card, LongtermScheduler, Parameters, Rating, State,
    StrategyInputs, FSRS,
};

fn bits(x: f64) -> u64 {
    x.to_bits()
}

fn inputs(again: i64, hard: i64, good: i64, easy: i64) -> StrategyInputs {
    StrategyInputs {
        again: BranchValues { difficulty: bits(5.0), stability: bits(1.0), raw_interval: again },
        hard: BranchValues { difficulty: bits(5.2), stability: bits(2.0), raw_interval: hard },
        good: BranchValues { difficulty: bits(5.0), stability: bits(4.0), raw_interval: good },
        easy: BranchValues { difficulty: bits(4.8), stability: bits(8.0), raw_interval: easy },
    }
}

fn fresh_card(now: i64) -> Card {
    Card {
        due: now,
        stability: 0,
        difficulty: 0,
        elapsed_days: 0,
        scheduled_days: 0,
        reps: 0,
        lapses: 0,
        state: State::New,
        last_review: now,
    }
}

#[test]
fn test_basic_scheduler_state() {
    // a new card rated Good six times, Again twice, then Good five times
    // walks New -> Learning -> Review ... -> Relearning ... -> Review
    let ratings = [
        Rating::Good,
        Rating::Good,
        Rating::Good,
        Rating::Good,
        Rating::Good,
        Rating::Good,
        Rating::Again,
        Rating::Again,
        Rating::Good,
        Rating::Good,
        Rating::Good,
        Rating::Good,
        Rating::Good,
    ];
    let fsrs = FSRS::new(Parameters::default());
    let mut now: i64 = 1_669_721_400_000;
    let mut card = fresh_card(now);
    let mut state_list: Vec<State> = Vec::new();
    for rating in ratings.iter() {
        let next = fsrs.next(card, now, inputs(5, 5, 5, 5), *rating);
        state_list.push(next.review_log.state);
        card = next.card;
        now = card.due;
    }
    let expected = [
        State::New,
        State::Learning,
        State::Review,
        State::Review,
        State::Review,
        State::Review,
        State::Review,
        State::Relearning,
        State::Relearning,
        State::Review,
        State::Review,
        State::Review,
        State::Review,
    ];
    assert_eq!(state_list, expected);
}

#[test]
fn test_basic_new_card_offsets() {
    let now: i64 = 1_669_721_400_000;
    let fsrs = FSRS::new(Parameters::default());
    let log = fsrs.repeat(fresh_card(now), now, inputs(3, 4, 5, 6));
    // fixed minute offsets for the three learning grades
    assert_eq!(log.again.card.due, now + 60_000);
    assert_eq!(log.hard.card.due, now + 300_000);
    assert_eq!(log.good.card.due, now + 600_000);
    assert_eq!(log.again.card.state, State::Learning);
    assert_eq!(log.good.card.scheduled_days, 0);
    // Easy gets a full interval
    assert_eq!(log.easy.card.state, State::Review);
    assert_eq!(log.easy.card.scheduled_days, 6);
    assert_eq!(log.easy.card.due, now + 6 * 86_400_000);
    // every branch advanced the repetition count
    assert_eq!(log.again.card.reps, 1);
    assert_eq!(log.easy.card.reps, 1);
    // the log records the pre-update state
    assert_eq!(log.easy.review_log.state, State::New);
    assert_eq!(log.easy.review_log.reviewed_date, now);
}

#[test]
fn test_basic_review_interval_ordering() {
    let now: i64 = 1_669_721_400_000;
    let mut card = fresh_card(now - 10 * 86_400_000);
    card.state = State::Review;
    card.stability = bits(10.0);
    card.difficulty = bits(5.0);
    let fsrs = FSRS::new(Parameters::default());
    // raw intervals chosen so the ordering enforcement has to act
    let log = fsrs.repeat(card, now, inputs(1, 10, 5, 7));
    assert_eq!(log.hard.card.scheduled_days, 5);
    assert_eq!(log.good.card.scheduled_days, 6);
    assert_eq!(log.easy.card.scheduled_days, 7);
    assert!(log.hard.card.scheduled_days <= log.good.card.scheduled_days);
    assert!(log.good.card.scheduled_days < log.easy.card.scheduled_days);
    // Again lapses into relearning with a short offset
    assert_eq!(log.again.card.state, State::Relearning);
    assert_eq!(log.again.card.lapses, 1);
    assert_eq!(log.again.card.scheduled_days, 0);
    assert_eq!(log.again.card.due, now + 300_000);
    assert_eq!(log.hard.card.state, State::Review);
    // ten days passed since the last review
    assert_eq!(log.good.card.elapsed_days, 10);
}

#[test]
fn test_basic_learning_easy_at_least_one_past_good() {
    let now: i64 = 1_669_721_400_000;
    let mut card = fresh_card(now - 86_400_000);
    card.state = State::Learning;
    card.stability = bits(2.0);
    card.difficulty = bits(5.0);
    let fsrs = FSRS::new(Parameters::default());
    let log = fsrs.repeat(card, now, inputs(1, 2, 9, 4));
    // Again and Hard keep the learning state with fixed offsets
    assert_eq!(log.again.card.state, State::Learning);
    assert_eq!(log.again.card.due, now + 300_000);
    assert_eq!(log.hard.card.due, now + 600_000);
    // Easy is forced at least one day past Good's interval
    assert_eq!(log.good.card.scheduled_days, 9);
    assert_eq!(log.easy.card.scheduled_days, 10);
}

#[test]
fn test_basic_scheduler_memoization() {
    let now: i64 = 1_669_721_400_000;
    let mut card = fresh_card(now - 5 * 86_400_000);
    card.state = State::Review;
    let mut s = BasicScheduler::new(Parameters::default(), card, now, inputs(2, 3, 5, 8));
    let first = s.review(Rating::Good);
    let second = s.review(Rating::Good);
    assert_eq!(first, second);
    let preview = s.preview();
    assert_eq!(preview.good, first);
}

#[test]
fn test_longterm_new_card_ordering() {
    let now: i64 = 1_669_721_400_000;
    let mut params = Parameters::default();
    params.enable_short_term = false;
    let fsrs = FSRS::new(params);
    let log = fsrs.repeat(fresh_card(now), now, inputs(3, 3, 3, 3));
    // every grade gets a full interval and lands in Review
    assert_eq!(log.again.card.state, State::Review);
    assert_eq!(log.easy.card.state, State::Review);
    assert_eq!(log.again.card.scheduled_days, 3);
    assert_eq!(log.hard.card.scheduled_days, 4);
    assert_eq!(log.good.card.scheduled_days, 5);
    assert_eq!(log.easy.card.scheduled_days, 6);
    assert_eq!(log.easy.card.due, now + 6 * 86_400_000);
    // a new card's log entries show no elapsed or scheduled days
    assert_eq!(log.good.review_log.elapsed_days, 0);
    assert_eq!(log.good.review_log.scheduled_days, 0);
    assert_eq!(log.good.review_log.state, State::New);
    // no lapse on a never-seen card
    assert_eq!(log.again.card.lapses, 0);
}

#[test]
fn test_longterm_review_lapses() {
    let now: i64 = 1_669_721_400_000;
    let mut card = fresh_card(now - 20 * 86_400_000);
    card.state = State::Review;
    card.lapses = 2;
    card.reps = 7;
    let mut params = Parameters::default();
    params.enable_short_term = false;
    let mut s = LongtermScheduler::new(params, card, now, inputs(2, 5, 11, 20));
    let again = s.review(Rating::Again);
    let easy = s.review(Rating::Easy);
    assert_eq!(again.card.lapses, 3);
    assert_eq!(easy.card.lapses, 2);
    assert_eq!(again.card.state, State::Review);
    assert_eq!(again.card.reps, 8);
    assert_eq!(again.card.scheduled_days, 2);
    assert_eq!(easy.card.scheduled_days, 20);
    assert_eq!(again.review_log.elapsed_days, 20);
}

#[test]
fn test_card_new_defaults() {
    let card = Card::new();
    assert_eq!(card.state, State::New);
    assert_eq!(card.reps, 0);
    assert_eq!(card.lapses, 0);
    assert_eq!(card.due, card.last_review);
}

#[test]
fn test_rating_iter_order() {
    let order = Rating::iter();
    assert_eq!(order, vec![Rating::Again, Rating::Hard, Rating::Good, Rating::Easy]);
    assert_eq!(order[0].ordinal(), 1);
    assert_eq!(order[3].ordinal(), 4);
}

#[test]
fn test_elapsed_days_negative_clock() {
    // a review recorded before the card's last review truncates toward zero
    let now: i64 = 1_669_721_400_000;
    let mut card = fresh_card(now + 3 * 86_400_000 / 2);
    card.state = State::Review;
    let fsrs = FSRS::new(Parameters::default());
    let log = fsrs.repeat(card, now, inputs(1, 2, 3, 4));
    assert_eq!(log.good.card.elapsed_days, -1);
}

#[test]
fn test_basic_review_ordering_with_fuzz() {
    // the ordering enforcement holds under the fuzz as well
    let now: i64 = 1_669_721_400_000;
    let mut card = fresh_card(now - 40 * 86_400_000);
    card.state = State::Review;
    let mut params = Parameters::default();
    params.enable_fuzz = true;
    params.seed = fsrs::Seed::new("12345".to_string());
    let fsrs_engine = FSRS::new(params);
    let log = fsrs_engine.repeat(card, now, inputs(4, 30, 20, 25));
    assert!(log.hard.card.scheduled_days >= 1);
    assert!(log.hard.card.scheduled_days <= log.good.card.scheduled_days);
    assert!(log.good.card.scheduled_days < log.easy.card.scheduled_days);
}

#[test]
fn test_longterm_ordering_with_fuzz() {
    let now: i64 = 1_669_721_400_000;
    let mut card = fresh_card(now - 40 * 86_400_000);
    card.state = State::Review;
    let mut params = Parameters::default();
    params.enable_short_term = false;
    params.enable_fuzz = true;
    params.seed = fsrs::Seed::new("NegativeS2Seed".to_string());
    let fsrs_engine = FSRS::new(params);
    let log = fsrs_engine.repeat(card, now, inputs(5, 7, 11, 13));
    assert!(log.again.card.scheduled_days >= 1);
    assert!(log.again.card.scheduled_days <= log.hard.card.scheduled_days);
    assert!(log.hard.card.scheduled_days < log.good.card.scheduled_days);
    assert!(log.good.card.scheduled_days < log.easy.card.scheduled_days);
}

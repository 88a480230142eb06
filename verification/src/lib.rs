//! A spaced-repetition scheduling engine.
//!
//! Given a card's memory state and a grade, the engine derives the next
//! review date and the updated memory-strength values. The interval fuzz
//! is driven by a deterministic, seedable pseudo-random generator whose
//! arithmetic is modelled exactly over integer mantissa/exponent pairs.
mod alea;
mod algo;
mod fp;
mod models;
mod parameters;
mod scheduler;
mod scheduler_basic;
mod scheduler_longterm;

pub use alea::alea;
pub use alea::Alea;
pub use alea::AleaState;
pub use alea::Prng;
pub use algo::FSRS;
pub use fp::Fp;
pub use models::Rating;
pub use models::State;
pub use models::Card;
pub use models::RecordLog;
pub use models::ReviewLog;
pub use models::SchedulingInfo;
pub use parameters::get_fuzz_range;
pub use parameters::u64_to_string;
pub use parameters::Parameters;
pub use parameters::ParametersError;
pub use parameters::Seed;
pub use scheduler::BranchValues;
pub use scheduler::Scheduler;
pub use scheduler::StrategyInputs;
pub use scheduler_basic::BasicScheduler;
pub use scheduler_longterm::LongtermScheduler;

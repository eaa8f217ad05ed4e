//! A single-player number-guessing game: the round state machine and the
//! ranked top-five leaderboard, with every rule stated as a contract.

pub mod clock;
pub mod input;
pub mod leaderboard;
pub mod number;
pub mod random;
pub mod round;
pub mod score;
pub mod store;
pub mod tier;

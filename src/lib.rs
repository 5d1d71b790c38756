//! Reproducible party-game mechanics: a numbered-ball lottery (bingo) and a
//! ladder-lottery prize assignment (amida), driven by deterministic
//! pseudo-random generators so that every viewer sees the same outcome.
pub mod rng;
pub mod domain;
pub mod seed;
pub mod state;
pub mod responses;

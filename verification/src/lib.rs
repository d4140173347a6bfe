//! Caffeine pharmacokinetics: a single-compartment exponential decay model,
//! predictors for crash time and sleep quality, a schedule validator, and a
//! greedy schedule optimizer.
//!
//! All quantities are integers: caffeine amounts in micrograms, instants in
//! Unix seconds, durations in minutes, and decay factors in Q32 fixed point
//! (a factor `f` stands for the real number `f / 2^32`).

pub mod caffeine;
pub mod constraints;
pub mod dose;
pub mod fixedpoint;
pub mod optimizer;
pub mod profile;
pub mod sensitivity;
pub mod sleep;

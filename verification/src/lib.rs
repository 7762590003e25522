//! Spaced-repetition scheduler throughput estimator.
//!
//! Two engines project how a flashcard scheduler's tuning (interval growth
//! factor, lapse handling, target retention) affects long-run learning
//! throughput: a stochastic per-card Monte Carlo simulator and a
//! deterministic cluster-based analytical approximation.
//!
//! All quantities are Q20 fixed-point numbers: a `u64` counts units of
//! `1 / fx::ONE`, so `fx::ONE` stands for one day, one second, one card of
//! mass, or a probability of one, depending on context.

pub mod fx;
pub mod retention;
pub mod rng;
pub mod defaults;
pub mod anki_sim;
pub mod anki_sim_ana;

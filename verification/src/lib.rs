//! Scoring and ranking engine for an IOI-style judging platform: turns
//! per-test-case verdicts into subtask scores, submission histories into
//! per-problem final scores, and per-problem scores into a ranked contest
//! leaderboard with dense, stable tie handling.
//!
//! The engine is pure: the host supplies the records, calls in, and
//! persists what comes back.

mod bignat;

pub mod aggregate;
pub mod laws;
pub mod leaderboard;
pub mod mock;
pub mod models;
pub mod ops;
pub mod scoring;

//! Scheduling core of a times-tables trainer.
//!
//! The crate keeps one learning record for each of the 144 multiplication
//! problems `a × b` with `a` and `b` between 1 and 12, picks the weakest
//! problem to practise next, and widens the set of practised tables as the
//! learner masters what is already open.

mod clock;
pub mod decimal;
pub mod laws;
pub mod problem;
pub mod spaced_rep;

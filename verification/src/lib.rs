//! An evaluation harness for succinct rank/select bit-vector structures.
//!
//! The harness does not implement rank or select itself: a structure under
//! test is plugged in behind the [`evaluator::Evaluate`] capability trait and
//! subjected to a correctness validator, a repeated-trial latency benchmark,
//! and a space-overhead computation.

pub mod bits;
pub mod evaluator;
pub mod overhead;
pub mod rng;
pub mod stats;
pub mod timing;
pub mod utils;

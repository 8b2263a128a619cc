//! Time-aware trust-flow ranking over a directed graph.
//!
//! Edge influence decays with elapsed time, the teleportation (restart)
//! distribution is biased toward a set of expert nodes, and a fixed number
//! of update rounds produces a rank vector.  All quantities are exact
//! rationals: every engine result is pinned, value by value, to a spec-level
//! model of the update rule, and the tests check total rank mass against
//! exactly one rather than a floating tolerance.

pub mod decay;
pub mod engine;
pub mod rational;
pub mod teleport;

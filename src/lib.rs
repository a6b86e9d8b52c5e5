//! Atom selection for a pattern-matching rule compiler: the quality score of
//! a (possibly masked) atom, and the ranking of candidate literal sequences.

mod bits;
pub mod errors;
mod literals;
pub mod quality;
pub mod ranking;

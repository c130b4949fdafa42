//! Small pure helpers: wrapping integer arithmetic, factorials, primality,
//! text helpers and statistics over integer slices, each with a verified contract.

pub mod utils;

//! The bookkeeping of a parallel approximation of π by the Madhava–Leibniz
//! series `π/4 = 1 - 1/3 + 1/5 - 1/7 + ...`.
//!
//! A computation sums a fixed number of terms. The term indices are divided
//! into one window per worker, each worker sums the terms of its window, and
//! the partial results are added up and scaled by four. This crate holds
//! every decision of that scheme that is made on integers, with its proof:
//!
//! - [`config`]: which magnitudes are accepted and how many terms one asks for;
//! - [`range`]: windows of term indices and the partition of `[0, total)`;
//! - [`term`]: sign and denominator of each term;
//! - [`worker`]: the walk of one worker over its window;
//! - [`dispatch`]: the plan for all workers and the gathering of their results;
//! - [`denominators`]: the precomputed denominator lists of the second
//!   formulation of the series;
//! - [`series`]: the sums in exact arithmetic, and the laws that the scheme
//!   rests on;
//! - [`convergence`]: more terms bring the exact sums strictly closer to
//!   the number they enclose;
//! - [`error`]: the ways in which a computation fails.
//!
//! The sums in double precision and the threads live with the caller.

pub mod config;
pub mod convergence;
pub mod denominators;
pub mod dispatch;
pub mod error;
pub mod range;
pub mod series;
pub mod term;
pub mod worker;

//! A capability-driven file-conversion broker.
//!
//! Given a source format and a desired target format, the broker discovers a
//! chain of external conversion tools through a capability registry, ranks the
//! candidate chains by quality and cost, and drives the chosen chain as a
//! supervised job with progress, retries, and cancellation.
//!
//! Fractional quantities (conversion quality, speed, resource cost, progress)
//! are represented as per-mille fixed-point integers in `0 ..= SCALE`, where
//! `SCALE` stands for 1.0.

use vstd::prelude::*;

pub mod adapter;
pub mod builtin;
pub mod capability;
mod clock;
pub mod commands;
pub mod conversion;
pub mod detector;
pub mod error;
pub mod job;
pub mod pipeline;
pub mod planner;
pub mod quality;
pub mod registry;
pub mod scheduler;
pub mod storage;
pub mod text;

verus! {

/// Fixed-point scale: a score of `SCALE` means 1.0, i.e. a perfect score.
pub const SCALE: u32 = 1000;

/// True when `x` is a valid per-mille score in `0 ..= SCALE`.
pub open spec fn valid_score(x: u32) -> bool {
    x <= SCALE
}

/// Product of two per-mille scores, rounded down.
///
/// Quality loss compounds multiplicatively across conversion hops, so the
/// quality of a chain is the scaled product of its steps' qualities.
pub open spec fn score_mul(a: u32, b: u32) -> u32
    recommends
        valid_score(a),
        valid_score(b),
{
    ((a * b) / (SCALE as int)) as u32
}

/// Multiplies two per-mille scores, staying within `0 ..= SCALE`.
pub fn mul_scores(a: u32, b: u32) -> (r: u32)
    requires
        valid_score(a),
        valid_score(b),
    ensures
        r == score_mul(a, b),
        valid_score(r),
        r <= a,
        r <= b,
{
    proof {
        assert(a * b <= SCALE * b) by (nonlinear_arith)
            requires a <= SCALE, 0 <= b;
        assert(a * b <= a * SCALE) by (nonlinear_arith)
            requires b <= SCALE, 0 <= a;
        assert((a * b) / (SCALE as int) <= b) by (nonlinear_arith)
            requires a * b <= SCALE * b, SCALE > 0;
        assert((a * b) / (SCALE as int) <= a) by (nonlinear_arith)
            requires a * b <= a * SCALE, SCALE > 0;
    }
    (a * b) / SCALE
}

} // verus!

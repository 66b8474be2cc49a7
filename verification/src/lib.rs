//! Monthly batch aggregation of trip-level transportation records.
//!
//! The crate groups filtered trip rows into composite-key aggregates and
//! reconciles the results against persisted keyed tables through an
//! insert-or-update merge, so that re-processing a period is idempotent.
//! Fractional quantities (fares, tips, distances, averaged values) are held
//! in fixed point with two decimal places: a fare of 20.00 is the integer
//! 2000.
use vstd::prelude::*;

pub mod agg;
pub mod detail;
pub mod location;
pub mod merge;
pub mod monthly;
pub mod pipeline;
pub mod row;
pub mod schema;
pub mod store;
pub mod summary;
pub mod time;

verus! {

/// The fatal conditions a run can hit, in the order they can arise:
/// a malformed invocation date, an unexpected failure while opening a
/// persisted table, a failure inside derivation or aggregation, and a
/// table write that could not be committed.
#[derive(Clone, Copy, PartialEq, Eq, Structural, Debug)]
pub enum PipelineError {
    InputParse,
    TableAccess,
    Computation,
    MergeCommit,
}

} // verus!

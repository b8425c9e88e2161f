//! The ways in which a computation of this library fails.
use vstd::prelude::*;

verus! {

#[derive(Clone, Copy, Debug, PartialEq, Eq, Structural)]
pub enum SofaError {
    /// A bisection was asked to search an interval whose lower bound lies
    /// above its upper bound.
    RootNotFound,
    /// A corridor was cut into another number of slices than the
    /// silhouette holds.
    SamplingMismatch,
}

} // verus!

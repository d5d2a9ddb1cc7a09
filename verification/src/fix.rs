//! The progress-or-fixed-point signal consumed by the trampoline loop
//! that drives evaluation.

use vstd::prelude::*;

verus! {

/// One step of an iterated computation: `Pro` carries a value that may
/// still change under further steps, `Fix` carries a value the step
/// function maps to itself.
#[derive(Debug, PartialEq, Eq)]
pub enum Fix<A> {
    /// A fixed point: iterating further would not change the value.
    Fix(A),
    /// Progress: the value was rewritten and iteration must continue.
    Pro(A),
}

} // verus!

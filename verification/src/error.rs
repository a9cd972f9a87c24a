//! The error taxonomy of the curve evaluator.

use vstd::prelude::*;

verus! {

/// Why an evaluation could not produce a point.
#[derive(Clone, Copy, Debug, PartialEq, Eq, Structural)]
pub enum CurveError {
    /// A caller-contract violation: an index outside the valid combinatorial
    /// range (`i > n`), an empty control polygon, control points of unequal
    /// dimension, or a weight vector whose length differs from the control
    /// polygon's.
    InvalidArgument,
    /// An exact intermediate value left the `i128` range, so the result
    /// could not be represented.
    Overflow,
    /// The Bernstein-weighted sum of the weights is exactly zero, so the
    /// final division of the rational evaluation is undefined.
    ZeroWeightSum,
}

} // verus!
